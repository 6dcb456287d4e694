//! What rendering a screen paints, cell by cell: background rectangles for
//! cells with an explicit background colour, and glyphs in the cell's
//! foreground colour. Rasterising glyphs and encoding images happen outside
//! the library; this module decides what goes where, in which colour.

use vstd::prelude::*;
use crate::grid::{Cell, Grid, shown};
use crate::screen::Screen;
use crate::theme::Theme;
use crate::width::{width_of, char_width};

verus! {

/// One painting step, in pixels.
#[derive(Debug, Clone, Copy, PartialEq, Eq)]
pub enum Paint {
    /// Fill the rectangle with a colour.
    Fill { x: u32, y: u32, w: u32, h: u32, rgb: [u8; 3] },
    /// Draw a glyph with its cell's top left at `(x, y)`; where no font has
    /// the glyph, fill the `w`×`h` rectangle instead.
    Glyph { ch: char, x: u32, y: u32, w: u32, h: u32, rgb: [u8; 3] },
}

/// The palette colour for xterm colour index `idx` (its low four bits).
pub open spec fn palette(theme: Theme, idx: u8) -> [u8; 3] {
    theme.ansi@[(idx % 16) as int]
}

/// How many cells wide a glyph is drawn: two for a double-width
/// character, one otherwise.
pub open spec fn glyph_span(ch: char) -> nat {
    if width_of(ch) == 2 {
        2
    } else {
        1
    }
}

/// What cell `c` at pixel `(x, y)` paints: nothing for the right half of a
/// wide glyph; else its background when it is not colour 0, then its glyph
/// unless it shows a space.
pub open spec fn cell_paints(c: Cell, x: u32, y: u32, theme: Theme, cw: u32, chh: u32) -> Seq<Paint> {
    if c.wide_cont {
        Seq::empty()
    } else {
        let ch = shown(c);
        let w = (cw * glyph_span(ch)) as u32;
        let bg = if c.bg != 0 {
            seq![Paint::Fill { x, y, w, h: chh, rgb: palette(theme, c.bg) }]
        } else {
            Seq::empty()
        };
        let fg = if ch == ' ' {
            Seq::empty()
        } else {
            seq![Paint::Glyph { ch, x, y, w, h: chh, rgb: palette(theme, c.fg) }]
        };
        bg + fg
    }
}

/// What one cell paints at pixel `(x, y)`: the right half of a wide glyph
/// paints nothing; otherwise a cell with a background colour first fills the
/// rectangle its glyph takes, from `(x, y)`, one cell high and one cell
/// wide, or two for a double-width character, in the background colour,
/// and then, unless it shows a space, draws its glyph over that same
/// rectangle in the foreground colour.
pub proof fn law_cell_paints(c: Cell, x: u32, y: u32, theme: Theme, cw: u32, chh: u32)
    requires
        2 * cw <= u32::MAX,
    ensures
        ({
            let ps = cell_paints(c, x, y, theme, cw, chh);
            let span: int = if width_of(shown(c)) == 2 { 2 } else { 1 };
            let fills: int = if c.bg != 0 { 1 } else { 0 };
            let glyphs: int = if shown(c) != ' ' { 1 } else { 0 };
            &&& c.wide_cont ==> ps.len() == 0
            &&& !c.wide_cont ==> ps.len() == fills + glyphs
            &&& (!c.wide_cont && c.bg != 0) ==> (ps[0] matches Paint::Fill { x: fx, y: fy, w, h, rgb }
                && fx == x && fy == y && w == cw * span && h == chh && rgb == theme.ansi@[(c.bg % 16) as int])
            &&& (!c.wide_cont && shown(c) != ' ') ==> (ps[fills] matches Paint::Glyph { ch, x: gx, y: gy, w, h, rgb }
                && ch == shown(c) && gx == x && gy == y && w == cw * span && h == chh
                && rgb == theme.ansi@[(c.fg % 16) as int])
        }),
{
    let ch = shown(c);
    let span = glyph_span(ch);
    assert(cw * span <= 2 * cw) by (nonlinear_arith)
        requires
            span <= 2,
    ;
    let w = (cw * span) as u32;
    assert(w == cw * span);
    let bg: Seq<Paint> = if c.bg != 0 {
        seq![Paint::Fill { x, y, w, h: chh, rgb: palette(theme, c.bg) }]
    } else {
        Seq::empty()
    };
    let fg: Seq<Paint> = if ch == ' ' {
        Seq::empty()
    } else {
        seq![Paint::Glyph { ch, x, y, w, h: chh, rgb: palette(theme, c.fg) }]
    };
    if !c.wide_cont {
        assert(cell_paints(c, x, y, theme, cw, chh) == bg + fg);
        if ch != ' ' {
            assert((bg + fg)[bg.len() as int] == fg[0]);
        }
    }
}

/// What the first `k` cells of grid `g`, in row-major order, paint.
pub open spec fn grid_paints(g: Grid, theme: Theme, cw: u32, chh: u32, k: nat) -> Seq<Paint>
    decreases k,
{
    if k == 0 || g.cols == 0 {
        Seq::empty()
    } else {
        let i = (k - 1) as nat;
        let r = i / g.cols;
        let c = i % g.cols;
        grid_paints(g, theme, cw, chh, i) + cell_paints(
            g.cells[i as int],
            (c * cw) as u32,
            (r * chh) as u32,
            theme,
            cw,
            chh,
        )
    }
}

/// The size of the rendered image: one `cw`×`chh` cell per grid cell.
pub fn canvas_size(screen: &Screen, cw: u32, chh: u32) -> (wh: (u32, u32))
    requires
        screen.cols * cw <= u32::MAX,
        screen.rows * chh <= u32::MAX,
        screen.cols <= u32::MAX,
        screen.rows <= u32::MAX,
    ensures
        wh.0 == screen.cols * cw,
        wh.1 == screen.rows * chh,
{
    ((screen.cols as u32) * cw, (screen.rows as u32) * chh)
}

/// Everything the screen's cells paint, row by row, for `cw`×`chh` pixel
/// cells coloured by `theme`.
pub fn paint_cells(screen: &Screen, theme: &Theme, cw: u32, chh: u32) -> (v: Vec<Paint>)
    requires
        screen.wf(),
        screen.cols * cw <= u32::MAX,
        screen.rows * chh <= u32::MAX,
        screen.cols <= u32::MAX,
        screen.rows <= u32::MAX,
        2 * cw <= u32::MAX,
    ensures
        v@ == grid_paints(screen@, *theme, cw, chh, (screen.cols * screen.rows) as nat),
{
    let ghost g = screen@;
    let total = screen.cells.len();
    let mut out: Vec<Paint> = Vec::new();
    let mut row: usize = 0;
    while row < screen.rows
        invariant
            g == screen@,
            screen.wf(),
            total == screen.cells@.len(),
            row <= screen.rows,
            screen.cols * cw <= u32::MAX,
            screen.rows * chh <= u32::MAX,
            screen.cols <= u32::MAX,
            screen.rows <= u32::MAX,
            2 * cw <= u32::MAX,
            out@ == grid_paints(g, *theme, cw, chh, (row * screen.cols) as nat),
        decreases screen.rows - row,
    {
        let mut col: usize = 0;
        while col < screen.cols
            invariant
                g == screen@,
                screen.wf(),
                total == screen.cells@.len(),
                row < screen.rows,
                col <= screen.cols,
                screen.cols * cw <= u32::MAX,
                screen.rows * chh <= u32::MAX,
                screen.cols <= u32::MAX,
                screen.rows <= u32::MAX,
                2 * cw <= u32::MAX,
                out@ == grid_paints(g, *theme, cw, chh, (row * screen.cols + col) as nat),
            decreases screen.cols - col,
        {
            proof {
                crate::screen::lemma_index_in_grid(row as nat, col as nat, screen.cols as nat, screen.rows as nat);
                assert(row * screen.cols + col >= row * screen.cols) by (nonlinear_arith);
                lemma_pixel_bounds(row as nat, col as nat, screen.cols as nat, screen.rows as nat, cw as nat, chh as nat);
                lemma_row_major(row as nat, col as nat, screen.cols as nat);
            }
            let i = row * screen.cols + col;
            let cell = screen.cells[i];
            let x: u32 = (col as u32) * cw;
            let y: u32 = (row as u32) * chh;
            let ghost before = out@;
            if !cell.wide_cont {
                let ch = if cell.ch == '\0' {
                    ' '
                } else {
                    cell.ch
                };
                let span: u32 = if char_width(ch) == 2 {
                    2
                } else {
                    1
                };
                let w: u32 = cw * span;
                if cell.bg != 0 {
                    let b: u8 = cell.bg;
                    let k: usize = (b & 0x0f) as usize;
                    assert(b & 0x0f == b % 16) by (bit_vector);
                    out.push(Paint::Fill { x, y, w, h: chh, rgb: theme.ansi[k] });
                }
                if ch != ' ' {
                    let f: u8 = cell.fg;
                    let k: usize = (f & 0x0f) as usize;
                    assert(f & 0x0f == f % 16) by (bit_vector);
                    out.push(Paint::Glyph { ch, x, y, w, h: chh, rgb: theme.ansi[k] });
                }
            }
            assert(out@ =~= before + cell_paints(cell, x, y, *theme, cw, chh));
            col = col + 1;
        }
        proof {
            assert((row + 1) * screen.cols == row * screen.cols + screen.cols) by (nonlinear_arith);
        }
        row = row + 1;
    }
    proof {
        assert(screen.rows * screen.cols == screen.cols * screen.rows) by (nonlinear_arith);
    }
    out
}

proof fn lemma_pixel_bounds(r: nat, c: nat, cols: nat, rows: nat, cw: nat, chh: nat)
    requires
        r < rows,
        c < cols,
    ensures
        c * cw <= cols * cw,
        r * chh <= rows * chh,
{
    assert(c * cw <= cols * cw) by (nonlinear_arith)
        requires
            c < cols,
    ;
    assert(r * chh <= rows * chh) by (nonlinear_arith)
        requires
            r < rows,
    ;
}

/// Index `r * cols + c` is row `r`, column `c`.
proof fn lemma_row_major(r: nat, c: nat, cols: nat)
    requires
        c < cols,
    ensures
        (r * cols + c) / cols == r,
        (r * cols + c) % cols == c,
        r * cols + c + 1 == (r * cols + c) + 1,
{
    vstd::arithmetic::div_mod::lemma_fundamental_div_mod_converse(
        (r * cols + c) as int,
        cols as int,
        r as int,
        c as int,
    );
}

/// Cells paint in reading order, each in its own place: what the cell in
/// row `r`, column `c` paints comes right after what every cell before it
/// paints, at pixel (`c * cw`, `r * chh`).
pub proof fn law_paint_positions(g: Grid, theme: Theme, cw: u32, chh: u32, r: nat, c: nat)
    requires
        g.cols > 0,
        c < g.cols,
    ensures
        grid_paints(g, theme, cw, chh, r * g.cols + c + 1) == grid_paints(g, theme, cw, chh, r * g.cols + c)
            + cell_paints(g.cells[(r * g.cols + c) as int], (c * cw) as u32, (r * chh) as u32, theme, cw, chh),
{
    let i = r * g.cols + c;
    vstd::arithmetic::div_mod::lemma_fundamental_div_mod_converse(i as int, g.cols as int, r as int, c as int);
    assert(i / g.cols == r);
    assert(i % g.cols == c);
}

} // verus!
