//! Screen reading for a language model.
//!
//! Raw text drops what makes a terminal legible: column alignment, the
//! spatial picture of the layout, and colour. This module describes a screen
//! in one of three shapes, selected by [`ReadStyle`]:
//!
//! - [`ReadStyle::Raw`]: the plain trimmed text (what `Screen::text` gives).
//! - [`ReadStyle::Boxed`]: the trimmed content inside a box-drawing frame
//!   sized to the content's bounding box.
//! - [`ReadStyle::Structured`] (the default): a header, the boxed frame, and
//!   a per-line breakdown into styled spans, so colour and emphasis survive.
//!
//! Wide (CJK) characters count by display width, so the frame stays
//! rectangular with mixed scripts.

use vstd::prelude::*;
use crate::grid::{Cell, Grid, shown, visible, sat_sub};
use crate::screen::Screen;
use crate::text::{
    trim_end, decimal, normalized, normalize, chars_eq, str_chars, push_str, push_decimal,
    trim_end_chars, string_from_chars,
};
use crate::width::{width_of, char_width};

verus! {

/// How to describe a screen for a reader.
#[derive(Debug, Clone, Copy, PartialEq, Eq, Structural)]
pub enum ReadStyle {
    /// Plain trimmed text only.
    Raw,
    /// Trimmed content inside a box-drawing frame.
    Boxed,
    /// Header, boxed frame and per-line styled spans. The default.
    Structured,
}

/// The style that a `KOU_READ_MODE` value selects.
pub open spec fn style_named(value: Option<Seq<char>>) -> ReadStyle {
    match value {
        Some(v) => {
            let k = normalized(v);
            if k == "raw"@ {
                ReadStyle::Raw
            } else if k == "boxed"@ || k == "box"@ {
                ReadStyle::Boxed
            } else {
                ReadStyle::Structured
            }
        },
        None => ReadStyle::Structured,
    }
}

impl ReadStyle {
    /// The style selected by the value of `KOU_READ_MODE` (`None` when the
    /// variable is unset): `raw`, or `boxed`/`box`, case-insensitively and
    /// ignoring surrounding white space; anything else is `Structured`.
    pub fn from_env(value: Option<&str>) -> (s: Self)
        ensures
            s == style_named(
                match value {
                    Some(v) => Some(v@),
                    None => None,
                },
            ),
    {
        match value {
            Some(v) => {
                let k = normalize(v);
                if chars_eq(k.as_slice(), "raw") {
                    ReadStyle::Raw
                } else if chars_eq(k.as_slice(), "boxed") || chars_eq(k.as_slice(), "box") {
                    ReadStyle::Boxed
                } else {
                    ReadStyle::Structured
                }
            },
            None => ReadStyle::Structured,
        }
    }
}

// ── xterm colour names ──────────────────────────────────────────────────

/// The name of xterm colour `idx` (only the low four bits count).
pub open spec fn colour_name_of(idx: u8) -> Seq<char> {
    let i = idx % 16;
    if i == 0 {
        "black"@
    } else if i == 1 {
        "red"@
    } else if i == 2 {
        "green"@
    } else if i == 3 {
        "yellow"@
    } else if i == 4 {
        "blue"@
    } else if i == 5 {
        "magenta"@
    } else if i == 6 {
        "cyan"@
    } else if i == 7 {
        "white"@
    } else if i == 8 {
        "bright-black"@
    } else if i == 9 {
        "bright-red"@
    } else if i == 10 {
        "bright-green"@
    } else if i == 11 {
        "bright-yellow"@
    } else if i == 12 {
        "bright-blue"@
    } else if i == 13 {
        "bright-magenta"@
    } else if i == 14 {
        "bright-cyan"@
    } else {
        "bright-white"@
    }
}

/// The xterm colour names: indexes 0 to 7 name the xterm palette in order
/// (black, red, green, yellow, blue, magenta, cyan, white), index `i + 8`
/// names the bright form of index `i`, only the low four bits of an index
/// count, and the sixteen names are pairwise different.
pub proof fn law_colour_names(i: u8, j: u8)
    ensures
        colour_name_of(i) == colour_name_of(i % 16),
        i < 8 ==> colour_name_of((i + 8) as u8) == "bright-"@ + colour_name_of(i),
        i < 8 ==> colour_name_of(i) == seq!["black"@, "red"@, "green"@, "yellow"@, "blue"@, "magenta"@, "cyan"@, "white"@][i as int],
        i < 16 && j < 16 && i != j ==> colour_name_of(i) != colour_name_of(j),
{
    reveal_strlit("black");
    reveal_strlit("red");
    reveal_strlit("green");
    reveal_strlit("yellow");
    reveal_strlit("blue");
    reveal_strlit("magenta");
    reveal_strlit("cyan");
    reveal_strlit("white");
    reveal_strlit("bright-black");
    reveal_strlit("bright-red");
    reveal_strlit("bright-green");
    reveal_strlit("bright-yellow");
    reveal_strlit("bright-blue");
    reveal_strlit("bright-magenta");
    reveal_strlit("bright-cyan");
    reveal_strlit("bright-white");
    reveal_strlit("bright-");
    assert("black"@.len() == 5 && "black"@[0] == 'b' && "black"@[4] == 'k');
    assert("red"@.len() == 3 && "red"@[0] == 'r' && "red"@[2] == 'd');
    assert("green"@.len() == 5 && "green"@[0] == 'g' && "green"@[4] == 'n');
    assert("yellow"@.len() == 6 && "yellow"@[0] == 'y' && "yellow"@[5] == 'w');
    assert("blue"@.len() == 4 && "blue"@[0] == 'b' && "blue"@[3] == 'e');
    assert("magenta"@.len() == 7 && "magenta"@[0] == 'm' && "magenta"@[6] == 'a');
    assert("cyan"@.len() == 4 && "cyan"@[0] == 'c' && "cyan"@[3] == 'n');
    assert("white"@.len() == 5 && "white"@[0] == 'w' && "white"@[4] == 'e');
    assert("bright-black"@.len() == 12 && "bright-black"@[0] == 'b' && "bright-black"@[11] == 'k' && "bright-black"@[7] == 'b');
    assert("bright-red"@.len() == 10 && "bright-red"@[0] == 'b' && "bright-red"@[9] == 'd' && "bright-red"@[7] == 'r');
    assert("bright-green"@.len() == 12 && "bright-green"@[0] == 'b' && "bright-green"@[11] == 'n' && "bright-green"@[7] == 'g');
    assert("bright-yellow"@.len() == 13 && "bright-yellow"@[0] == 'b' && "bright-yellow"@[12] == 'w' && "bright-yellow"@[7] == 'y');
    assert("bright-blue"@.len() == 11 && "bright-blue"@[0] == 'b' && "bright-blue"@[10] == 'e' && "bright-blue"@[7] == 'b');
    assert("bright-magenta"@.len() == 14 && "bright-magenta"@[0] == 'b' && "bright-magenta"@[13] == 'a' && "bright-magenta"@[7] == 'm');
    assert("bright-cyan"@.len() == 11 && "bright-cyan"@[0] == 'b' && "bright-cyan"@[10] == 'n' && "bright-cyan"@[7] == 'c');
    assert("bright-white"@.len() == 12 && "bright-white"@[0] == 'b' && "bright-white"@[11] == 'e' && "bright-white"@[7] == 'w');
    if i < 8 {
        assert(colour_name_of((i + 8) as u8) =~= "bright-"@ + colour_name_of(i));
    }
}

/// The name of xterm colour `idx`, by its low four bits.
pub fn colour_name(idx: u8) -> (s: &'static str)
    ensures
        s@ == colour_name_of(idx),
{
    let i: u8 = idx & 0x0f;
    assert(idx & 0x0f == idx % 16) by (bit_vector);
    match i {
        0 => "black",
        1 => "red",
        2 => "green",
        3 => "yellow",
        4 => "blue",
        5 => "magenta",
        6 => "cyan",
        7 => "white",
        8 => "bright-black",
        9 => "bright-red",
        10 => "bright-green",
        11 => "bright-yellow",
        12 => "bright-blue",
        13 => "bright-magenta",
        14 => "bright-cyan",
        _ => "bright-white",
    }
}

// ── display width ───────────────────────────────────────────────────────

/// Display width of a string: the sum of its characters' widths.
pub open spec fn display_width(s: Seq<char>) -> nat
    decreases s.len(),
{
    if s.len() == 0 {
        0
    } else {
        display_width(s.drop_last()) + width_of(s.last())
    }
}

/// `n` spaces.
pub open spec fn spaces(n: nat) -> Seq<char> {
    Seq::new(n, |i: int| ' ')
}

/// A prefix is no wider than the whole; one more character adds its width.
pub proof fn lemma_display_width_prefix(s: Seq<char>, i: int)
    requires
        0 <= i <= s.len(),
    ensures
        display_width(s.take(i)) <= display_width(s),
        i < s.len() ==> display_width(s.take(i + 1)) == display_width(s.take(i)) + width_of(s[i]),
    decreases s.len(),
{
    if i < s.len() {
        assert(s.take(i + 1).drop_last() == s.take(i));
        lemma_display_width_prefix(s.drop_last(), i);
        assert(s.drop_last().take(i) == s.take(i));
    } else {
        assert(s.take(i) == s);
    }
}

/// The width of two strings one after the other is the sum of their widths.
pub proof fn lemma_display_width_concat(a: Seq<char>, b: Seq<char>)
    ensures
        display_width(a + b) == display_width(a) + display_width(b),
    decreases b.len(),
{
    if b.len() == 0 {
        assert(a + b == a);
    } else {
        assert((a + b).drop_last() == a + b.drop_last());
        lemma_display_width_concat(a, b.drop_last());
    }
}

proof fn lemma_spaces_width(n: nat)
    requires
        width_of(' ') == 1,
    ensures
        display_width(spaces(n)) == n,
    decreases n,
{
    if n > 0 {
        assert(spaces(n).drop_last() == spaces((n - 1) as nat));
        lemma_spaces_width((n - 1) as nat);
    }
}

/// Padding keeps the frame rectangular: a line padded to `w` columns is
/// exactly `w` columns wide, or as wide as it was when it was wider (given
/// that a space is one column wide, as the width table has it).
pub proof fn law_padding_fills_the_frame(line: Seq<char>, w: nat)
    requires
        width_of(' ') == 1,
    ensures
        display_width(line + spaces(sat_sub(w, display_width(line)))) == if display_width(line) < w {
            w
        } else {
            display_width(line)
        },
{
    lemma_display_width_concat(line, spaces(sat_sub(w, display_width(line))));
    lemma_spaces_width(sat_sub(w, display_width(line)));
}

/// Display width of a string (each character weighted by [`char_width`]).
pub fn disp_width(s: &str) -> (w: usize)
    requires
        display_width(s@) <= usize::MAX,
    ensures
        w == display_width(s@),
{
    let cs = str_chars(s);
    let mut acc: usize = 0;
    let mut i: usize = 0;
    while i < cs.len()
        invariant
            cs@ == s@,
            i <= cs.len(),
            acc == display_width(s@.take(i as int)),
            display_width(s@) <= usize::MAX,
        decreases cs.len() - i,
    {
        proof {
            lemma_display_width_prefix(s@, i as int);
            lemma_display_width_prefix(s@, i as int + 1);
        }
        acc = acc + char_width(cs[i]) as usize;
        i = i + 1;
    }
    assert(s@.take(s@.len() as int) == s@);
    acc
}

/// Appends `n` copies of `c`.
fn push_repeat(out: &mut String, c: char, n: usize)
    ensures
        final(out)@ == old(out)@ + Seq::new(n as nat, |i: int| c),
{
    let mut k: usize = 0;
    while k < n
        invariant
            k <= n,
            out@ == old(out)@ + Seq::new(k as nat, |i: int| c),
        decreases n - k,
    {
        out.push(c);
        k = k + 1;
        assert(out@ == old(out)@ + Seq::new(k as nat, |i: int| c));
    }
}

/// Display width of `s`, or `usize::MAX` where it is wider; no character
/// is wider than three columns.
fn width_capped(s: &str) -> (w: usize)
    ensures
        w == if display_width(s@) <= usize::MAX { display_width(s@) } else { usize::MAX as nat },
        display_width(s@) <= 3 * s@.len(),
{
    let cs = str_chars(s);
    let mut acc: usize = 0;
    let mut i: usize = 0;
    while i < cs.len()
        invariant
            cs@ == s@,
            i <= cs.len(),
            acc == if display_width(s@.take(i as int)) <= usize::MAX {
                display_width(s@.take(i as int))
            } else {
                usize::MAX as nat
            },
            display_width(s@.take(i as int)) <= 3 * i,
        decreases cs.len() - i,
    {
        proof {
            lemma_display_width_prefix(s@, i as int);
        }
        acc = acc.saturating_add(char_width(cs[i]) as usize);
        i = i + 1;
    }
    assert(s@.take(s@.len() as int) == s@);
    acc
}

/// Pads `s` with trailing spaces to `width` display columns.
pub fn pad_to(s: &str, width: usize) -> (r: String)
    ensures
        r@ == s@ + spaces(sat_sub(width as nat, display_width(s@))),
{
    let mut out = String::new();
    push_str(&mut out, s);
    let w = width_capped(s);
    if w < width {
        push_repeat(&mut out, ' ', width - w);
    } else {
        assert(spaces(0) =~= Seq::<char>::empty());
    }
    out
}

// ── content bounds ──────────────────────────────────────────────────────

/// Columns a cell's glyph covers: its width, or none for a continuation cell.
pub open spec fn extent(c: Cell) -> nat {
    if c.wide_cont {
        0
    } else {
        width_of(c.ch)
    }
}

/// Cell `(r, c)` lies on the grid and holds a character.
pub open spec fn occupied(g: Grid, r: nat, c: nat) -> bool {
    r < g.rows && c < g.cols && g.cell(r, c).ch != '\0'
}

/// The last column that the glyph in cell `(r, c)` covers.
pub open spec fn reach(g: Grid, r: nat, c: nat) -> nat {
    c + sat_sub(extent(g.cell(r, c)), 1)
}

/// `b = (min_row, max_row, min_col, max_col)` is the tight bounding box of
/// the occupied cells, columns counted by display width.
pub open spec fn is_content_bounds(g: Grid, b: (nat, nat, nat, nat)) -> bool {
    &&& exists|c: nat| occupied(g, b.0, c)
    &&& exists|c: nat| occupied(g, b.1, c)
    &&& exists|r: nat| occupied(g, r, b.2)
    &&& exists|r: nat, c: nat| occupied(g, r, c) && reach(g, r, c) == b.3
    &&& forall|r: nat, c: nat|
        #[trigger] occupied(g, r, c) ==> b.0 <= r <= b.1 && b.2 <= c && reach(g, r, c) <= b.3
}

/// No cell of the grid holds a character.
pub open spec fn is_blank(g: Grid) -> bool {
    forall|r: nat, c: nat| !#[trigger] occupied(g, r, c)
}

/// The bounding box of the content, `None` for a blank grid.
pub open spec fn content_bounds_of(g: Grid) -> Option<(nat, nat, nat, nat)> {
    if is_blank(g) {
        None
    } else {
        Some(choose|b: (nat, nat, nat, nat)| is_content_bounds(g, b))
    }
}

/// There is one bounding box at most.
pub proof fn lemma_content_bounds_unique(g: Grid, b1: (nat, nat, nat, nat), b2: (nat, nat, nat, nat))
    requires
        is_content_bounds(g, b1),
        is_content_bounds(g, b2),
    ensures
        b1 == b2,
{
    let c1 = choose|c: nat| occupied(g, b1.0, c);
    let c2 = choose|c: nat| occupied(g, b2.0, c);
    let d1 = choose|c: nat| occupied(g, b1.1, c);
    let d2 = choose|c: nat| occupied(g, b2.1, c);
    let r1 = choose|r: nat| occupied(g, r, b1.2);
    let r2 = choose|r: nat| occupied(g, r, b2.2);
    let (x1, y1) = choose|r: nat, c: nat| occupied(g, r, c) && reach(g, r, c) == b1.3;
    let (x2, y2) = choose|r: nat, c: nat| occupied(g, r, c) && reach(g, r, c) == b2.3;
    assert(occupied(g, b1.0, c1) && occupied(g, b2.0, c2));
    assert(occupied(g, b1.1, d1) && occupied(g, b2.1, d2));
    assert(occupied(g, r1, b1.2) && occupied(g, r2, b2.2));
    assert(occupied(g, x1, y1) && occupied(g, x2, y2));
}

/// A grid that is blank has no bounding box, and one that is not has
/// exactly the box `content_bounds_of` names.
pub proof fn lemma_content_bounds_of(g: Grid, b: (nat, nat, nat, nat))
    requires
        is_content_bounds(g, b),
    ensures
        content_bounds_of(g) == Some(b),
{
    let c = choose|c: nat| occupied(g, b.0, c);
    assert(occupied(g, b.0, c));
    assert(!is_blank(g));
    let b2 = choose|b2: (nat, nat, nat, nat)| is_content_bounds(g, b2);
    lemma_content_bounds_unique(g, b, b2);
}

/// Cell `(r, c)` comes before `(row, col)` in row-major order.
pub open spec fn seen(r: nat, c: nat, row: nat, col: nat) -> bool {
    r < row || (r == row && c < col)
}

/// `b` bounds the occupied cells that come before `(row, col)`, tightly.
pub open spec fn bounds_upto(g: Grid, b: (nat, nat, nat, nat), row: nat, col: nat) -> bool {
    &&& exists|c: nat| occupied(g, b.0, c) && seen(b.0, c, row, col)
    &&& exists|c: nat| occupied(g, b.1, c) && seen(b.1, c, row, col)
    &&& exists|r: nat| occupied(g, r, b.2) && seen(r, b.2, row, col)
    &&& exists|r: nat, c: nat| occupied(g, r, c) && seen(r, c, row, col) && reach(g, r, c) == b.3
    &&& forall|r: nat, c: nat|
        #[trigger] occupied(g, r, c) && seen(r, c, row, col) ==> b.0 <= r <= b.1 && b.2 <= c
            && reach(g, r, c) <= b.3
}

/// No occupied cell comes before `(row, col)`.
pub open spec fn none_upto(g: Grid, row: nat, col: nat) -> bool {
    forall|r: nat, c: nat| #[trigger] occupied(g, r, c) ==> !seen(r, c, row, col)
}

/// The box after taking in the occupied cell `(r, c)` of reach `rc`.
pub open spec fn widen(any: bool, b: (nat, nat, nat, nat), r: nat, c: nat, rc: nat) -> (
    nat,
    nat,
    nat,
    nat,
) {
    if !any {
        (r, r, c, rc)
    } else {
        (
            if r < b.0 { r } else { b.0 },
            if r > b.1 { r } else { b.1 },
            if c < b.2 { c } else { b.2 },
            if rc > b.3 { rc } else { b.3 },
        )
    }
}

proof fn lemma_widen(g: Grid, any: bool, b: (nat, nat, nat, nat), row: nat, col: nat)
    requires
        occupied(g, row, col),
        any ==> bounds_upto(g, b, row, col),
        !any ==> none_upto(g, row, col),
    ensures
        bounds_upto(g, widen(any, b, row, col, reach(g, row, col)), row, col + 1),
{
    let rc = reach(g, row, col);
    let nb = widen(any, b, row, col, rc);
    assert(seen(row, col, row, col + 1));
    if any {
        let c0 = choose|c: nat| occupied(g, b.0, c) && seen(b.0, c, row, col);
        let c1 = choose|c: nat| occupied(g, b.1, c) && seen(b.1, c, row, col);
        let r2 = choose|r: nat| occupied(g, r, b.2) && seen(r, b.2, row, col);
        let (r3, c3) = choose|r: nat, c: nat|
            occupied(g, r, c) && seen(r, c, row, col) && reach(g, r, c) == b.3;
        assert(occupied(g, b.0, c0) && seen(b.0, c0, row, col + 1));
        assert(occupied(g, b.1, c1) && seen(b.1, c1, row, col + 1));
        assert(occupied(g, r2, b.2) && seen(r2, b.2, row, col + 1));
        assert(occupied(g, r3, c3) && seen(r3, c3, row, col + 1));
        assert(b.0 <= row && b.1 <= row);
        assert(nb.0 == b.0);
        assert(occupied(g, nb.0, c0) && seen(nb.0, c0, row, col + 1));
        if row > b.1 {
            assert(occupied(g, nb.1, col) && seen(nb.1, col, row, col + 1));
        } else {
            assert(occupied(g, nb.1, c1) && seen(nb.1, c1, row, col + 1));
        }
        if col < b.2 {
            assert(occupied(g, row, nb.2) && seen(row, nb.2, row, col + 1));
        } else {
            assert(occupied(g, r2, nb.2) && seen(r2, nb.2, row, col + 1));
        }
        if rc > b.3 {
            assert(occupied(g, row, col) && seen(row, col, row, col + 1) && reach(g, row, col) == nb.3);
        } else {
            assert(occupied(g, r3, c3) && seen(r3, c3, row, col + 1) && reach(g, r3, c3) == nb.3);
        }
        assert forall|r: nat, c: nat| #[trigger] occupied(g, r, c) && seen(r, c, row, col + 1) implies nb.0
            <= r <= nb.1 && nb.2 <= c && reach(g, r, c) <= nb.3 by {
            if !(r == row && c == col) {
                assert(seen(r, c, row, col));
            }
        }
        assert(exists|r: nat| occupied(g, r, nb.2) && seen(r, nb.2, row, col + 1));
        assert(exists|r: nat, c: nat|
            occupied(g, r, c) && seen(r, c, row, col + 1) && reach(g, r, c) == nb.3);
    } else {
        assert forall|r: nat, c: nat|
            #[trigger] occupied(g, r, c) && seen(r, c, row, col + 1) implies r == row && c == col by {
            assert(!seen(r, c, row, col));
        }
    }
}

/// Moving past an empty cell keeps the box.
proof fn lemma_skip(g: Grid, any: bool, b: (nat, nat, nat, nat), row: nat, col: nat)
    requires
        !occupied(g, row, col),
        any ==> bounds_upto(g, b, row, col),
        !any ==> none_upto(g, row, col),
    ensures
        any ==> bounds_upto(g, b, row, col + 1),
        !any ==> none_upto(g, row, col + 1),
{
    if any {
        let c0 = choose|c: nat| occupied(g, b.0, c) && seen(b.0, c, row, col);
        let c1 = choose|c: nat| occupied(g, b.1, c) && seen(b.1, c, row, col);
        let r2 = choose|r: nat| occupied(g, r, b.2) && seen(r, b.2, row, col);
        let (r3, c3) = choose|r: nat, c: nat|
            occupied(g, r, c) && seen(r, c, row, col) && reach(g, r, c) == b.3;
        assert(occupied(g, b.0, c0) && seen(b.0, c0, row, col + 1));
        assert(occupied(g, b.1, c1) && seen(b.1, c1, row, col + 1));
        assert(occupied(g, r2, b.2) && seen(r2, b.2, row, col + 1));
        assert(occupied(g, r3, c3) && seen(r3, c3, row, col + 1));
        assert forall|r: nat, c: nat|
            #[trigger] occupied(g, r, c) && seen(r, c, row, col + 1) implies seen(r, c, row, col) by {
        }
    } else {
        assert forall|r: nat, c: nat| #[trigger] occupied(g, r, c) implies !seen(r, c, row, col + 1) by {
            assert(!seen(r, c, row, col));
        }
    }
}

/// The end of a row is the start of the next.
proof fn lemma_next_row(g: Grid, any: bool, b: (nat, nat, nat, nat), row: nat)
    requires
        any ==> bounds_upto(g, b, row, g.cols),
        !any ==> none_upto(g, row, g.cols),
    ensures
        any ==> bounds_upto(g, b, row + 1, 0),
        !any ==> none_upto(g, row + 1, 0),
{
    assert forall|r: nat, c: nat| #[trigger] occupied(g, r, c) implies (seen(r, c, row + 1, 0)
        <==> seen(r, c, row, g.cols)) by {
    }
    if any {
        let c0 = choose|c: nat| occupied(g, b.0, c) && seen(b.0, c, row, g.cols);
        let c1 = choose|c: nat| occupied(g, b.1, c) && seen(b.1, c, row, g.cols);
        let r2 = choose|r: nat| occupied(g, r, b.2) && seen(r, b.2, row, g.cols);
        let (r3, c3) = choose|r: nat, c: nat|
            occupied(g, r, c) && seen(r, c, row, g.cols) && reach(g, r, c) == b.3;
        assert(occupied(g, b.0, c0) && seen(b.0, c0, row + 1, 0));
        assert(occupied(g, b.1, c1) && seen(b.1, c1, row + 1, 0));
        assert(occupied(g, r2, b.2) && seen(r2, b.2, row + 1, 0));
        assert(occupied(g, r3, c3) && seen(r3, c3, row + 1, 0));
    }
}

/// Once every row has been scanned, the partial box is the whole one.
proof fn lemma_scan_done(g: Grid, any: bool, b: (nat, nat, nat, nat))
    requires
        any ==> bounds_upto(g, b, g.rows, 0),
        !any ==> none_upto(g, g.rows, 0),
    ensures
        any ==> content_bounds_of(g) == Some(b),
        !any ==> content_bounds_of(g) is None,
{
    if any {
        let c0 = choose|c: nat| occupied(g, b.0, c) && seen(b.0, c, g.rows, 0);
        let c1 = choose|c: nat| occupied(g, b.1, c) && seen(b.1, c, g.rows, 0);
        let r2 = choose|r: nat| occupied(g, r, b.2) && seen(r, b.2, g.rows, 0);
        let (r3, c3) = choose|r: nat, c: nat|
            occupied(g, r, c) && seen(r, c, g.rows, 0) && reach(g, r, c) == b.3;
        assert(occupied(g, b.0, c0));
        assert(occupied(g, b.1, c1));
        assert(occupied(g, r2, b.2));
        assert(occupied(g, r3, c3) && reach(g, r3, c3) == b.3);
        assert forall|r: nat, c: nat| #[trigger] occupied(g, r, c) implies b.0 <= r <= b.1 && b.2
            <= c && reach(g, r, c) <= b.3 by {
            assert(seen(r, c, g.rows, 0));
        }
        lemma_content_bounds_of(g, b);
    } else {
        assert forall|r: nat, c: nat| !#[trigger] occupied(g, r, c) by {
            if occupied(g, r, c) {
                assert(seen(r, c, g.rows, 0));
            }
        }
    }
}

/// The tight `(min_row, max_row, min_col, max_col)` bounding box of the
/// cells that hold a character, columns counted by display width (a wide
/// glyph claims the column after it too); `None` for a blank screen.
pub fn content_bounds(screen: &Screen) -> (b: Option<(usize, usize, usize, usize)>)
    requires
        screen.wf(),
        screen.cols + 2 <= usize::MAX,
    ensures
        content_bounds_of(screen@) == match b {
            Some(x) => Some((x.0 as nat, x.1 as nat, x.2 as nat, x.3 as nat)),
            None => None,
        },
        b matches Some(x) ==> x.0 <= x.1 < screen.rows && x.2 <= x.3 && x.2 < screen.cols
            && x.3 < screen.cols + 2,
{
    let ghost g = screen@;
    let mut min_row: usize = 0;
    let mut max_row: usize = 0;
    let mut min_col: usize = 0;
    let mut max_col: usize = 0;
    let mut any = false;
    let total = screen.cells.len();
    let mut row: usize = 0;
    while row < screen.rows
        invariant
            g == screen@,
            total == screen.cells@.len(),
            screen.wf(),
            screen.cols + 2 <= usize::MAX,
            row <= screen.rows,
            any ==> bounds_upto(g, (min_row as nat, max_row as nat, min_col as nat, max_col as nat), row as nat, 0),
            !any ==> none_upto(g, row as nat, 0),
            any ==> max_row < row && min_col < screen.cols && max_col < screen.cols + 2,
        decreases screen.rows - row,
    {
        let mut col: usize = 0;
        while col < screen.cols
            invariant
                g == screen@,
                total == screen.cells@.len(),
                screen.wf(),
                screen.cols + 2 <= usize::MAX,
                row < screen.rows,
                col <= screen.cols,
                any ==> bounds_upto(g, (min_row as nat, max_row as nat, min_col as nat, max_col as nat), row as nat, col as nat),
                !any ==> none_upto(g, row as nat, col as nat),
                any ==> max_row <= row && min_col < screen.cols && max_col < screen.cols + 2,
            decreases screen.cols - col,
        {
            proof {
                crate::screen::lemma_index_in_grid(row as nat, col as nat, screen.cols as nat, screen.rows as nat);
                assert(row * screen.cols + col >= row * screen.cols) by (nonlinear_arith);
            }
            let cell = screen.cells[row * screen.cols + col];
            let ghost b = (min_row as nat, max_row as nat, min_col as nat, max_col as nat);
            if cell.ch != '\0' {
                let w: usize = if cell.wide_cont {
                    0
                } else {
                    char_width(cell.ch) as usize
                };
                let rc: usize = if w > 0 {
                    col + (w - 1)
                } else {
                    col
                };
                proof {
                    assert(occupied(g, row as nat, col as nat));
                    assert(rc == reach(g, row as nat, col as nat));
                    lemma_widen(g, any, b, row as nat, col as nat);
                }
                if !any {
                    min_row = row;
                    max_row = row;
                    min_col = col;
                    max_col = rc;
                } else {
                    if row < min_row {
                        min_row = row;
                    }
                    if row > max_row {
                        max_row = row;
                    }
                    if col < min_col {
                        min_col = col;
                    }
                    if rc > max_col {
                        max_col = rc;
                    }
                }
                any = true;
            } else {
                proof {
                    lemma_skip(g, any, b, row as nat, col as nat);
                }
            }
            col = col + 1;
        }
        proof {
            lemma_next_row(g, any, (min_row as nat, max_row as nat, min_col as nat, max_col as nat), row as nat);
        }
        row = row + 1;
    }
    proof {
        lemma_scan_done(g, any, (min_row as nat, max_row as nat, min_col as nat, max_col as nat));
    }
    if !any {
        return None;
    }
    proof {
        let b = (min_row as nat, max_row as nat, min_col as nat, max_col as nat);
        let r0 = choose|r: nat| occupied(g, r, b.2) && seen(r, b.2, g.rows, 0);
        assert(occupied(g, r0, b.2));
        assert(b.2 <= reach(g, r0, b.2));
        let c0 = choose|c: nat| occupied(g, b.0, c) && seen(b.0, c, g.rows, 0);
        assert(occupied(g, b.0, c0));
    }
    Some((min_row, max_row, min_col, max_col))
}

// ── trimmed lines ───────────────────────────────────────────────────────

/// The cells of row `r` from column `c0` through `c1`, cut at the right
/// edge of the grid.
pub open spec fn span(g: Grid, r: nat, c0: nat, c1: nat) -> Seq<Cell> {
    let e = if c1 + 1 < g.cols {
        c1 + 1
    } else {
        g.cols
    };
    if c0 < e {
        g.row(r).subrange(c0 as int, e as int)
    } else {
        Seq::empty()
    }
}

/// What row `r` shows between columns `c0` and `c1`, trailing white space
/// trimmed.
pub open spec fn trimmed_line(g: Grid, r: nat, c0: nat, c1: nat) -> Seq<char> {
    trim_end(visible(span(g, r, c0, c1)))
}

/// The trimmed lines of rows `b.0` through `b.1`, columns `b.2` through `b.3`.
pub open spec fn trimmed_lines_of(g: Grid, b: (nat, nat, nat, nat)) -> Seq<Seq<char>> {
    let n = if b.0 <= b.1 {
        (b.1 - b.0 + 1) as nat
    } else {
        0
    };
    Seq::new(n, |i: int| trimmed_line(g, (b.0 + i) as nat, b.2, b.3))
}

/// The views of a list of strings.
pub open spec fn views(v: Seq<String>) -> Seq<Seq<char>> {
    v.map_values(|s: String| s@)
}

/// The characters that row `r` shows between columns `c0` and `c1`
/// (continuation cells skipped, blanks as spaces).
fn span_chars(screen: &Screen, r: usize, c0: usize, c1: usize) -> (v: Vec<char>)
    requires
        screen.wf(),
        r < screen.rows,
    ensures
        v@ == visible(span(screen@, r as nat, c0 as nat, c1 as nat)),
{
    let ghost g = screen@;
    let e: usize = if c1 < screen.cols {
        c1 + 1
    } else {
        screen.cols
    };
    let ghost sp = span(g, r as nat, c0 as nat, c1 as nat);
    let total = screen.cells.len();
    let mut out: Vec<char> = Vec::new();
    if c0 >= e {
        return out;
    }
    proof {
        crate::screen::lemma_row_in_grid(r as nat, screen.cols as nat, screen.rows as nat);
        assert(r * screen.cols + screen.cols >= r * screen.cols) by (nonlinear_arith);
    }
    let base = r * screen.cols;
    let mut col = c0;
    while col < e
        invariant
            g == screen@,
            screen.wf(),
            total == screen.cells@.len(),
            r < screen.rows,
            c0 <= col <= e <= screen.cols,
            c0 < e,
            base == r * screen.cols,
            base + screen.cols <= total,
            sp == g.row(r as nat).subrange(c0 as int, e as int),
            out@ == visible(sp.take(col - c0)),
        decreases e - col,
    {
        let cell = screen.cells[base + col];
        let k: usize = col - c0;
        assert(sp.take(k + 1).drop_last() == sp.take(k as int));
        assert(sp.take(k + 1).last() == cell);
        if !cell.wide_cont {
            out.push(if cell.ch == '\0' {
                ' '
            } else {
                cell.ch
            });
        }
        col = col + 1;
    }
    assert(sp.take(e - c0) == sp);
    out
}

/// The trimmed, display-width-aware lines of rows `b.0` through `b.1`,
/// columns `b.2` through `b.3`.
pub fn trimmed_lines(screen: &Screen, b: (usize, usize, usize, usize)) -> (v: Vec<String>)
    requires
        screen.wf(),
        b.0 <= b.1 ==> b.1 < screen.rows,
    ensures
        views(v@) == trimmed_lines_of(screen@, (b.0 as nat, b.1 as nat, b.2 as nat, b.3 as nat)),
{
    let ghost g = screen@;
    let ghost bn = (b.0 as nat, b.1 as nat, b.2 as nat, b.3 as nat);
    let mut out: Vec<String> = Vec::new();
    if b.0 > b.1 {
        assert(views(out@) =~= trimmed_lines_of(g, bn));
        return out;
    }
    let mut row = b.0;
    while row <= b.1
        invariant
            g == screen@,
            screen.wf(),
            bn == (b.0 as nat, b.1 as nat, b.2 as nat, b.3 as nat),
            b.0 <= row <= b.1 + 1,
            b.1 < screen.rows,
            views(out@) == trimmed_lines_of(g, bn).take(row - b.0),
        decreases b.1 + 1 - row,
    {
        let mut cs = span_chars(screen, row, b.2, b.3);
        trim_end_chars(&mut cs);
        let line = string_from_chars(cs.as_slice());
        let ghost before = out@;
        out.push(line);
        assert(views(out@) =~= views(before).push(line@));
        assert(trimmed_lines_of(g, bn).take(row - b.0 + 1) =~= trimmed_lines_of(g, bn).take(
            row - b.0,
        ).push(trimmed_line(g, row as nat, b.2 as nat, b.3 as nat)));
        row = row + 1;
    }
    assert(trimmed_lines_of(g, bn).take(row - b.0) =~= trimmed_lines_of(g, bn));
    out
}

// ── boxed ───────────────────────────────────────────────────────────────

/// `n` horizontal box-drawing strokes.
pub open spec fn rule(n: nat) -> Seq<char> {
    Seq::new(n, |i: int| '─')
}

/// The top edge of a frame `w` columns wide inside: a corner, one stroke,
/// the title, then strokes to fill the row, when the title fits.
pub open spec fn top_border(w: nat) -> Seq<char> {
    let tw = display_width(" kou "@) + 1;
    if w >= tw {
        seq!['┌', '─'] + " kou "@ + rule((w - tw) as nat) + seq!['┐']
    } else {
        seq!['┌'] + rule(w) + seq!['┐']
    }
}

/// The bottom edge of a frame `w` columns wide inside.
pub open spec fn bottom_border(w: nat) -> Seq<char> {
    seq!['└'] + rule(w) + seq!['┘']
}

/// One framed line: the line padded to `w` columns between vertical strokes.
pub open spec fn framed_line(line: Seq<char>, w: nat) -> Seq<char> {
    seq!['│'] + line + spaces(sat_sub(w, display_width(line))) + seq!['│', '\n']
}

/// Every line framed, in order.
pub open spec fn framed_rows(lines: Seq<Seq<char>>, w: nat) -> Seq<char>
    decreases lines.len(),
{
    if lines.len() == 0 {
        Seq::empty()
    } else {
        framed_rows(lines.drop_last(), w) + framed_line(lines.last(), w)
    }
}

/// `lines` in a box-drawing frame `w` columns wide inside, after an optional
/// header line.
pub open spec fn frame_text(lines: Seq<Seq<char>>, w: nat, header: Option<Seq<char>>) -> Seq<char> {
    let head = match header {
        Some(h) => h + seq!['\n'],
        None => Seq::empty(),
    };
    head + top_border(w) + seq!['\n'] + framed_rows(lines, w) + bottom_border(w)
}

/// Width inside the frame for bounds `b`.
pub open spec fn inner_width(b: (nat, nat, nat, nat)) -> nat {
    sat_sub(b.3, b.2) + 1
}

/// What the boxed reading of grid `g` is.
pub open spec fn boxed_text(g: Grid) -> Seq<char> {
    match content_bounds_of(g) {
        None => "(blank terminal)\n"@,
        Some(b) => frame_text(trimmed_lines_of(g, b), inner_width(b), None),
    }
}

/// Wraps the (already trimmed) `lines` in a box-drawing frame of display
/// width `inner_w`, after an optional header line.
pub fn frame(lines: &[String], inner_w: usize, header: Option<&str>) -> (s: String)
    ensures
        s@ == frame_text(
            views(lines@),
            inner_w as nat,
            match header {
                Some(h) => Some(h@),
                None => None,
            },
        ),
{
    let title_w = width_capped(" kou ");
    proof {
        reveal_strlit(" kou ");
    }
    let mut out = String::new();
    match header {
        Some(h) => {
            push_str(&mut out, h);
            out.push('\n');
        },
        None => {},
    }
    out.push('┌');
    if title_w < inner_w {
        out.push('─');
        push_str(&mut out, " kou ");
        push_repeat(&mut out, '─', inner_w - title_w - 1);
    } else {
        push_repeat(&mut out, '─', inner_w);
    }
    out.push('┐');
    out.push('\n');
    let ghost start = out@;
    let mut i: usize = 0;
    while i < lines.len()
        invariant
            i <= lines.len(),
            out@ == start + framed_rows(views(lines@).take(i as int), inner_w as nat),
        decreases lines.len() - i,
    {
        out.push('│');
        let padded = pad_to(lines[i].as_str(), inner_w);
        push_str(&mut out, padded.as_str());
        out.push('│');
        out.push('\n');
        assert(views(lines@).take(i + 1).drop_last() =~= views(lines@).take(i as int));
        i = i + 1;
    }
    assert(views(lines@).take(lines@.len() as int) =~= views(lines@));
    out.push('└');
    push_repeat(&mut out, '─', inner_w);
    out.push('┘');
    out
}

/// The trimmed content in a box-drawing frame sized to its bounding box, or
/// `(blank terminal)` for a blank screen.
pub fn boxed(screen: &Screen) -> (s: String)
    requires
        screen.wf(),
        screen.cols + 2 <= usize::MAX,
    ensures
        s@ == boxed_text(screen@),
{
    match content_bounds(screen) {
        None => {
            let mut out = String::new();
            push_str(&mut out, "(blank terminal)\n");
            out
        },
        Some(b) => {
            let inner_w = b.3 - b.2 + 1;
            let lines = trimmed_lines(screen, b);
            frame(lines.as_slice(), inner_w, None)
        },
    }
}

// ── styled spans ────────────────────────────────────────────────────────

/// The colour and emphasis of a cell.
#[derive(Debug, Clone, Copy, PartialEq, Eq, Structural)]
pub struct Attrs {
    pub fg: u8,
    pub bg: u8,
    pub bold: bool,
    pub italic: bool,
    pub underline: bool,
}

/// The attributes of cell `c`.
pub open spec fn attrs_of(c: Cell) -> Attrs {
    Attrs { fg: c.fg, bg: c.bg, bold: c.bold, italic: c.italic, underline: c.underline }
}

/// White on black with no emphasis: text that needs no annotation.
pub open spec fn is_plain(a: Attrs) -> bool {
    a.fg == 7 && a.bg == 0 && !a.bold && !a.italic && !a.underline
}

/// One annotation part when `b` holds, none otherwise.
pub open spec fn part_if(b: bool, s: Seq<char>) -> Seq<Seq<char>> {
    if b {
        seq![s]
    } else {
        Seq::empty()
    }
}

/// The annotation parts of `a`, in order: foreground, background, bold,
/// italic, underline.
pub open spec fn attr_parts(a: Attrs) -> Seq<Seq<char>> {
    part_if(a.fg != 7, "fg="@ + colour_name_of(a.fg)) + part_if(a.bg != 0, "bg="@ + colour_name_of(a.bg))
        + part_if(a.bold, "bold"@) + part_if(a.italic, "italic"@) + part_if(a.underline, "underline"@)
}

/// `parts` joined with `sep` between neighbours.
pub open spec fn join_with(parts: Seq<Seq<char>>, sep: char) -> Seq<char>
    decreases parts.len(),
{
    if parts.len() == 0 {
        Seq::empty()
    } else if parts.len() == 1 {
        parts[0]
    } else {
        join_with(parts.drop_last(), sep) + seq![sep] + parts.last()
    }
}

/// The annotation of attributes `a`, such as `fg=red;bold`.
pub open spec fn describe_of(a: Attrs) -> Seq<char> {
    join_with(attr_parts(a), ';')
}

proof fn lemma_join_first(parts: Seq<Seq<char>>, sep: char)
    requires
        parts.len() > 0,
    ensures
        join_with(parts, sep).len() >= parts[0].len(),
        join_with(parts, sep).take(parts[0].len() as int) == parts[0],
    decreases parts.len(),
{
    if parts.len() > 1 {
        lemma_join_first(parts.drop_last(), sep);
        let j = join_with(parts.drop_last(), sep);
        assert((j + seq![sep] + parts.last()).take(parts[0].len() as int) =~= j.take(parts[0].len() as int));
    }
}

/// A cell's annotation is empty exactly for plain white-on-black text, and
/// otherwise begins with what differs first: `fg=<name>` for a foreground
/// other than the default white, else `bg=<name>` for a background other
/// than black.
pub proof fn law_annotation(a: Attrs)
    ensures
        describe_of(a).len() == 0 <==> is_plain(a),
        a.fg != 7 ==> describe_of(a).take(3 + colour_name_of(a.fg).len() as int) == "fg="@ + colour_name_of(a.fg),
        a.fg == 7 && a.bg != 0 ==> describe_of(a).take(3 + colour_name_of(a.bg).len() as int) == "bg="@
            + colour_name_of(a.bg),
{
    reveal_strlit("fg=");
    reveal_strlit("bg=");
    reveal_strlit("bold");
    reveal_strlit("italic");
    reveal_strlit("underline");
    let ps = attr_parts(a);
    if is_plain(a) {
        assert(ps =~= Seq::<Seq<char>>::empty());
    } else {
        assert(ps.len() > 0);
        lemma_join_first(ps, ';');
        assert(ps[0].len() > 0);
        if a.fg != 7 {
            assert(ps[0] == "fg="@ + colour_name_of(a.fg));
        } else if a.bg != 0 {
            assert(ps[0] == "bg="@ + colour_name_of(a.bg));
        }
    }
}

/// Appends one more part to a `;`-joined list of `parts`.
fn push_part(out: &mut String, count: usize, piece: &str, Ghost(parts): Ghost<Seq<Seq<char>>>)
    requires
        old(out)@ == join_with(parts, ';'),
        count == parts.len(),
    ensures
        final(out)@ == join_with(parts.push(piece@), ';'),
{
    assert(parts.push(piece@).drop_last() == parts);
    if count > 0 {
        out.push(';');
    }
    push_str(out, piece);
}

impl Attrs {
    /// The attributes of `c`.
    pub fn of(c: &Cell) -> (a: Self)
        ensures
            a == attrs_of(*c),
    {
        Attrs { fg: c.fg, bg: c.bg, bold: c.bold, italic: c.italic, underline: c.underline }
    }

    /// White on black with no emphasis.
    pub fn is_default(&self) -> (r: bool)
        ensures
            r == is_plain(*self),
    {
        self.fg == 7 && self.bg == 0 && !self.bold && !self.italic && !self.underline
    }

    /// The annotation: `fg=`/`bg=` colour names where they differ from white
    /// on black, then `bold`, `italic`, `underline`, joined with `;`.
    pub fn describe(&self) -> (s: String)
        ensures
            s@ == describe_of(*self),
    {
        let ghost a = *self;
        let mut out = String::new();
        let mut n: usize = 0;
        let ghost mut parts: Seq<Seq<char>> = Seq::empty();
        if self.fg != 7 {
            let mut piece = String::new();
            push_str(&mut piece, "fg=");
            push_str(&mut piece, colour_name(self.fg));
            push_part(&mut out, n, piece.as_str(), Ghost(parts));
            proof {
                parts = parts.push(piece@);
            }
            n = n + 1;
        }
        assert(parts =~= part_if(a.fg != 7, "fg="@ + colour_name_of(a.fg)));
        let ghost p1 = parts;
        if self.bg != 0 {
            let mut piece = String::new();
            push_str(&mut piece, "bg=");
            push_str(&mut piece, colour_name(self.bg));
            push_part(&mut out, n, piece.as_str(), Ghost(parts));
            proof {
                parts = parts.push(piece@);
            }
            n = n + 1;
        }
        assert(parts =~= p1 + part_if(a.bg != 0, "bg="@ + colour_name_of(a.bg)));
        let ghost p2 = parts;
        if self.bold {
            push_part(&mut out, n, "bold", Ghost(parts));
            proof {
                parts = parts.push("bold"@);
            }
            n = n + 1;
        }
        assert(parts =~= p2 + part_if(a.bold, "bold"@));
        let ghost p3 = parts;
        if self.italic {
            push_part(&mut out, n, "italic", Ghost(parts));
            proof {
                parts = parts.push("italic"@);
            }
            n = n + 1;
        }
        assert(parts =~= p3 + part_if(a.italic, "italic"@));
        let ghost p4 = parts;
        if self.underline {
            push_part(&mut out, n, "underline", Ghost(parts));
            proof {
                parts = parts.push("underline"@);
            }
        }
        assert(parts =~= p4 + part_if(a.underline, "underline"@));
        assert(parts =~= attr_parts(a));
        out
    }
}

/// The annotation a cell's run carries: none for plain text.
pub open spec fn effective(c: Cell) -> Option<Attrs> {
    if is_plain(attrs_of(c)) {
        None
    } else {
        Some(attrs_of(c))
    }
}

/// The maximal runs of neighbouring cells with the same annotation, each
/// with the characters it shows (continuation cells skipped).
pub open spec fn runs(cells: Seq<Cell>) -> Seq<(Option<Attrs>, Seq<char>)>
    decreases cells.len(),
{
    if cells.len() == 0 {
        Seq::empty()
    } else {
        let rs = runs(cells.drop_last());
        let c = cells.last();
        if c.wide_cont {
            rs
        } else if rs.len() > 0 && rs.last().0 == effective(c) {
            rs.update(rs.len() - 1, (effective(c), rs.last().1.push(shown(c))))
        } else {
            rs.push((effective(c), seq![shown(c)]))
        }
    }
}

/// The texts of runs `rs`, one after another.
pub open spec fn run_texts(rs: Seq<(Option<Attrs>, Seq<char>)>) -> Seq<char>
    decreases rs.len(),
{
    if rs.len() == 0 {
        Seq::empty()
    } else {
        run_texts(rs.drop_last()) + rs.last().1
    }
}

/// The styled runs of a row lose and add nothing: their texts, in order,
/// are the characters the cells show (continuation cells skipped); no run
/// is empty; and neighbouring runs differ in annotation, so each run is as
/// long as it can be.
pub proof fn law_runs_partition(cells: Seq<Cell>)
    ensures
        run_texts(runs(cells)) == crate::grid::visible(cells),
        forall|i: int| 0 <= i < runs(cells).len() ==> (#[trigger] runs(cells)[i]).1.len() > 0,
        forall|i: int| 0 <= i < runs(cells).len() - 1 ==> (#[trigger] runs(cells)[i]).0 != runs(cells)[i + 1].0,
    decreases cells.len(),
{
    if cells.len() > 0 {
        let dl = cells.drop_last();
        let c = cells.last();
        law_runs_partition(dl);
        let rs = runs(dl);
        if c.wide_cont {
        } else if rs.len() > 0 && rs.last().0 == effective(c) {
            let nr = rs.update(rs.len() - 1, (effective(c), rs.last().1.push(shown(c))));
            assert(nr.drop_last() =~= rs.drop_last());
            assert(rs.drop_last().push(rs.last()) =~= rs);
            assert(run_texts(rs) == run_texts(rs.drop_last()) + rs.last().1);
            assert(run_texts(nr) == run_texts(rs.drop_last()) + rs.last().1.push(shown(c)));
            assert(run_texts(nr) =~= run_texts(rs).push(shown(c)));
            assert forall|i: int| 0 <= i < nr.len() - 1 implies (#[trigger] nr[i]).0 != nr[i + 1].0 by {
                assert(nr[i] == rs[i]);
                if i + 1 < nr.len() - 1 {
                    assert(nr[i + 1] == rs[i + 1]);
                }
            }
        } else {
            let nr = rs.push((effective(c), seq![shown(c)]));
            assert(nr.drop_last() =~= rs);
            assert(run_texts(nr) =~= run_texts(rs).push(shown(c)));
            assert forall|i: int| 0 <= i < nr.len() - 1 implies (#[trigger] nr[i]).0 != nr[i + 1].0 by {
                assert(nr[i] == rs[i]);
                if i + 1 < nr.len() - 1 {
                    assert(nr[i + 1] == rs[i + 1]);
                }
            }
        }
    }
}

/// A run written out: its text quoted, then its annotation, then a space.
pub open spec fn segment(run: (Option<Attrs>, Seq<char>)) -> Seq<char> {
    let note = match run.0 {
        Some(a) => seq![' '] + describe_of(a),
        None => Seq::empty(),
    };
    seq!['"'] + run.1 + seq!['"'] + note + seq![' ']
}

/// The runs written out one after another.
pub open spec fn segments(rs: Seq<(Option<Attrs>, Seq<char>)>) -> Seq<char>
    decreases rs.len(),
{
    if rs.len() == 0 {
        Seq::empty()
    } else {
        segments(rs.drop_last()) + segment(rs.last())
    }
}

/// Row `r` between columns `c0` and `c1` as styled spans.
pub open spec fn spans_text(g: Grid, r: nat, c0: nat, c1: nat) -> Seq<char> {
    trim_end(segments(runs(span(g, r, c0, c1))))
}

fn same_run(a: Option<Attrs>, b: Option<Attrs>) -> (r: bool)
    ensures
        r == (a == b),
{
    match (a, b) {
        (None, None) => true,
        (Some(x), Some(y)) => x == y,
        _ => false,
    }
}

/// Appends one written-out run.
fn push_segment(out: &mut Vec<char>, text: &Vec<char>, run: Option<Attrs>)
    ensures
        final(out)@ == old(out)@ + segment((run, text@)),
{
    out.push('"');
    let mut i: usize = 0;
    while i < text.len()
        invariant
            i <= text.len(),
            out@ == old(out)@ + seq!['"'] + text@.take(i as int),
        decreases text.len() - i,
    {
        out.push(text[i]);
        i = i + 1;
        assert(out@ == old(out)@ + seq!['"'] + text@.take(i as int));
    }
    assert(text@.take(text@.len() as int) == text@);
    out.push('"');
    match run {
        Some(a) => {
            out.push(' ');
            let d = a.describe();
            let mut dv = str_chars(d.as_str());
            out.append(&mut dv);
        },
        None => {},
    }
    out.push(' ');
}

/// One content line as a sequence of `"text" annotation` segments: cells
/// with the same colour and emphasis coalesce into one quoted run, and a run
/// of plain white-on-black text gets no annotation.
pub fn render_spans(screen: &Screen, row: usize, min_col: usize, max_col: usize) -> (s: String)
    requires
        screen.wf(),
        row < screen.rows,
    ensures
        s@ == spans_text(screen@, row as nat, min_col as nat, max_col as nat),
{
    let ghost g = screen@;
    let ghost sp = span(g, row as nat, min_col as nat, max_col as nat);
    let mut out: Vec<char> = Vec::new();
    let mut buf: Vec<char> = Vec::new();
    let mut run: Option<Attrs> = None;
    let e: usize = if max_col < screen.cols {
        max_col + 1
    } else {
        screen.cols
    };
    if min_col < e {
        let total = screen.cells.len();
        proof {
            crate::screen::lemma_row_in_grid(row as nat, screen.cols as nat, screen.rows as nat);
            assert(row * screen.cols + screen.cols >= row * screen.cols) by (nonlinear_arith);
        }
        let base = row * screen.cols;
        let mut col = min_col;
        while col < e
            invariant
                g == screen@,
                screen.wf(),
                total == screen.cells@.len(),
                row < screen.rows,
                min_col <= col <= e <= screen.cols,
                min_col < e,
                base == row * screen.cols,
                base + screen.cols <= total,
                sp == g.row(row as nat).subrange(min_col as int, e as int),
                (buf@.len() == 0) == (runs(sp.take(col - min_col)).len() == 0),
                runs(sp.take(col - min_col)).len() == 0 ==> out@.len() == 0,
                runs(sp.take(col - min_col)).len() > 0 ==> runs(sp.take(col - min_col)).last() == (
                run,
                buf@,
                ) && out@ == segments(runs(sp.take(col - min_col)).drop_last()),
            decreases e - col,
        {
            let cell = screen.cells[base + col];
            let k: usize = col - min_col;
            let ghost rs = runs(sp.take(k as int));
            assert(sp.take(k + 1).drop_last() == sp.take(k as int));
            assert(sp.take(k + 1).last() == cell);
            if !cell.wide_cont {
                let a = Attrs::of(&cell);
                let cell_run = if a.is_default() {
                    None
                } else {
                    Some(a)
                };
                assert(cell_run == effective(cell));
                if !same_run(cell_run, run) {
                    if buf.len() > 0 {
                        push_segment(&mut out, &buf, run);
                        buf = Vec::new();
                        assert(rs.drop_last().push(rs.last()) == rs);
                    }
                    run = cell_run;
                }
                let ch = if cell.ch == '\0' {
                    ' '
                } else {
                    cell.ch
                };
                buf.push(ch);
                proof {
                    let nrs = runs(sp.take(k + 1));
                    if rs.len() > 0 && rs.last().0 == effective(cell) {
                        assert(nrs.drop_last() =~= rs.drop_last());
                    } else {
                        assert(nrs.drop_last() =~= rs);
                    }
                }
            }
            col = col + 1;
        }
        assert(sp.take(e - min_col) == sp);
    } else {
        assert(sp.len() == 0);
        assert(sp.take(0) == sp);
    }
    let ghost rs = runs(sp);
    if buf.len() > 0 {
        push_segment(&mut out, &buf, run);
        assert(rs.drop_last().push(rs.last()) == rs);
    }
    trim_end_chars(&mut out);
    string_from_chars(out.as_slice())
}

// ── structured ──────────────────────────────────────────────────────────

/// The header line: frame size, cursor position and the alternate-screen
/// flag.
pub open spec fn header_text(g: Grid, alt: bool) -> Seq<char> {
    "## kou frame "@ + decimal(g.cols) + seq!['×'] + decimal(g.rows) + ", cursor (row="@ + decimal(
        g.cursor_row,
    ) + ",col="@ + decimal(g.cursor_col) + ")"@ + if alt {
        " [alt-screen]"@
    } else {
        Seq::empty()
    }
}

/// The first `k` content lines as numbered styled spans, one per line;
/// lines are numbered from 1 at the top of the screen.
pub open spec fn span_lines(g: Grid, b: (nat, nat, nat, nat), k: nat) -> Seq<char>
    decreases k,
{
    if k == 0 {
        Seq::empty()
    } else {
        span_lines(g, b, (k - 1) as nat) + decimal(b.0 + k) + ": "@ + spans_text(
            g,
            (b.0 + k - 1) as nat,
            b.2,
            b.3,
        ) + seq!['\n']
    }
}

/// What the structured reading of grid `g` is (`alt`: the alternate screen
/// is active).
pub open spec fn structured_text(g: Grid, alt: bool) -> Seq<char> {
    let h = header_text(g, alt);
    match content_bounds_of(g) {
        None => h + "\n\n(blank terminal)\n"@,
        Some(b) => {
            let lines = trimmed_lines_of(g, b);
            h + "\n\n"@ + frame_text(lines, inner_width(b), None)
                + "\n\n## lines (fg/bg = xterm colour; styles noted inline)\n"@ + span_lines(
                g,
                b,
                lines.len(),
            )
        },
    }
}

/// A header, the boxed frame, and each content line broken into styled
/// spans.
pub fn structured(screen: &Screen) -> (s: String)
    requires
        screen.wf(),
        screen.cols + 2 <= usize::MAX,
    ensures
        s@ == structured_text(screen@, screen.alt_screen),
{
    let ghost g = screen@;
    let mut header = String::new();
    push_str(&mut header, "## kou frame ");
    push_decimal(&mut header, screen.cols as u64);
    header.push('×');
    push_decimal(&mut header, screen.rows as u64);
    push_str(&mut header, ", cursor (row=");
    push_decimal(&mut header, screen.cursor_row as u64);
    push_str(&mut header, ",col=");
    push_decimal(&mut header, screen.cursor_col as u64);
    push_str(&mut header, ")");
    if screen.alt_screen {
        push_str(&mut header, " [alt-screen]");
    } else {
        assert(header@ + Seq::<char>::empty() == header@);
    }
    assert(header@ == header_text(g, screen.alt_screen));
    let bounds = content_bounds(screen);
    match bounds {
        None => {
            let mut out = header;
            push_str(&mut out, "\n\n(blank terminal)\n");
            out
        },
        Some(b) => {
            let ghost bn = (b.0 as nat, b.1 as nat, b.2 as nat, b.3 as nat);
            let inner_w = b.3 - b.2 + 1;
            let lines = trimmed_lines(screen, b);
            let boxed = frame(lines.as_slice(), inner_w, None);
            let mut out = header;
            push_str(&mut out, "\n\n");
            push_str(&mut out, boxed.as_str());
            push_str(&mut out, "\n\n## lines (fg/bg = xterm colour; styles noted inline)\n");
            let ghost start = out@;
            let mut i: usize = 0;
            while i < lines.len()
                invariant
                    g == screen@,
                    screen.wf(),
                    bn == (b.0 as nat, b.1 as nat, b.2 as nat, b.3 as nat),
                    b.0 <= b.1 < screen.rows,
                    lines@.len() == b.1 - b.0 + 1,
                    i <= lines.len(),
                    out@ == start + span_lines(g, bn, i as nat),
                decreases lines.len() - i,
            {
                push_decimal(&mut out, (b.0 + i + 1) as u64);
                push_str(&mut out, ": ");
                let sp = render_spans(screen, b.0 + i, b.2, b.3);
                push_str(&mut out, sp.as_str());
                out.push('\n');
                i = i + 1;
            }
            out
        },
    }
}

/// What reading grid `g` in `style` gives (`alt`: the alternate screen is
/// active).
pub open spec fn reading(g: Grid, alt: bool, style: ReadStyle) -> Seq<char> {
    match style {
        ReadStyle::Raw => g.text(),
        ReadStyle::Boxed => boxed_text(g),
        ReadStyle::Structured => structured_text(g, alt),
    }
}

/// Describes `screen` according to `style`.
pub fn read(screen: &Screen, style: ReadStyle) -> (s: String)
    requires
        screen.wf(),
        screen.cols + 2 <= usize::MAX,
    ensures
        s@ == reading(screen@, screen.alt_screen, style),
{
    match style {
        ReadStyle::Raw => screen.text(),
        ReadStyle::Boxed => boxed(screen),
        ReadStyle::Structured => structured(screen),
    }
}

/// Describes `screen` in the style that the value of `KOU_READ_MODE`
/// selects (`None` when the variable is unset).
pub fn read_default(screen: &Screen, mode: Option<&str>) -> (s: String)
    requires
        screen.wf(),
        screen.cols + 2 <= usize::MAX,
    ensures
        s@ == reading(
            screen@,
            screen.alt_screen,
            style_named(
                match mode {
                    Some(v) => Some(v@),
                    None => None,
                },
            ),
        ),
{
    read(screen, ReadStyle::from_env(mode))
}

} // verus!
