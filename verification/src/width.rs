//! Display width of a character on the terminal grid.

use vstd::prelude::*;

verus! {

/// The width, in grid columns, that the Unicode East Asian Width tables
/// (UAX #11, ambiguous characters narrow) assign to `c`, or `None` when `c`
/// is a control character.
pub uninterp spec fn unicode_width(c: char) -> Option<usize>;

/// Wraps `unicode_width::UnicodeWidthChar::width`. Its result is the table
/// lookup named `unicode_width`; the crate's source also shows that no entry
/// is wider than 3 columns, that printable ASCII is 1 column wide, and that
/// the C0 and C1 control ranges are `None`.
#[verifier::external_body]
fn table_width(c: char) -> (r: Option<usize>)
    ensures
        r == unicode_width(c),
        r matches Some(w) ==> w <= 3,
        ('\u{20}' <= c && c < '\u{7f}') ==> r == Some(1usize),
        (c < '\u{20}' || ('\u{7f}' <= c && c < '\u{a0}')) ==> r is None,
{
    unicode_width::UnicodeWidthChar::width(c)
}

/// Width of `c` in columns: the table width, with control characters as 0.
pub open spec fn width_of(c: char) -> nat {
    match unicode_width(c) {
        Some(w) => w as nat,
        None => 0,
    }
}

/// Display width of `ch` on the terminal grid: CJK / full-width / wide emoji
/// count as 2, control characters as 0.
pub fn char_width(ch: char) -> (w: u16)
    ensures
        w == width_of(ch),
        w <= 3,
        ('\u{20}' <= ch && ch < '\u{7f}') ==> w == 1,
        (ch < '\u{20}' || ('\u{7f}' <= ch && ch < '\u{a0}')) ==> w == 0,
{
    match table_width(ch) {
        Some(w) => w as u16,
        None => 0,
    }
}

} // verus!
