//! The mathematical model of a terminal screen: a grid of styled cells, a
//! cursor, the SGR "pen", the deferred-wrap flag and the scrollback. Every
//! operation of the emulator is defined here as a function from model to
//! model; the executable `Screen` is proved to follow these definitions.

use vstd::prelude::*;
use crate::text::trim_end;
use crate::width::width_of;
use crate::vt::VtAction;

verus! {

/// Maximum number of off-screen lines retained in the scrollback buffer.
pub const SCROLLBACK_MAX: usize = 1000;

/// One character cell of the grid.
#[derive(Debug, Clone, Copy, PartialEq, Eq, Structural)]
pub struct Cell {
    pub ch: char,
    pub fg: u8,
    pub bg: u8,
    pub bold: bool,
    pub italic: bool,
    pub underline: bool,
    /// `true` for the right-hand continuation cell of a double-wide (CJK)
    /// glyph. Renderers skip these (the wide char is drawn from the left cell).
    pub wide_cont: bool,
}

/// The blank cell: no character, white on black, no emphasis.
pub open spec fn blank() -> Cell {
    Cell {
        ch: '\0',
        fg: 7,
        bg: 0,
        bold: false,
        italic: false,
        underline: false,
        wide_cont: false,
    }
}

impl Default for Cell {
    /// Terminal convention: the default attribute is white-on-black (fg=7,
    /// bg=0), so unstyled text renders visible against the dark background.
    fn default() -> (c: Self)
        ensures
            c == blank(),
    {
        Cell {
            ch: '\0',
            fg: 7,
            bg: 0,
            bold: false,
            italic: false,
            underline: false,
            wide_cont: false,
        }
    }
}

/// The SGR attributes applied to every character written.
#[derive(Clone, Copy)]
pub struct Pen {
    pub fg: u8,
    pub bg: u8,
    pub bold: bool,
    pub italic: bool,
    pub underline: bool,
}

/// The default pen: white on black, no emphasis.
pub open spec fn default_pen() -> Pen {
    Pen { fg: 7, bg: 0, bold: false, italic: false, underline: false }
}

/// The abstract state of a screen.
pub struct Grid {
    pub cols: nat,
    pub rows: nat,
    /// Row-major cells: cell `(r, c)` is `cells[r * cols + c]`.
    pub cells: Seq<Cell>,
    pub cursor_row: nat,
    pub cursor_col: nat,
    pub pen: Pen,
    pub wrap_pending: bool,
    /// Lines scrolled off the top, oldest first.
    pub scrollback: Seq<Seq<char>>,
}

/// `n - 1`, or 0 for 0.
pub open spec fn sat_dec(n: nat) -> nat {
    if n == 0 {
        0
    } else {
        (n - 1) as nat
    }
}

pub open spec fn sat_sub(a: nat, b: nat) -> nat {
    if a >= b {
        (a - b) as nat
    } else {
        0
    }
}

pub open spec fn min_nat(a: nat, b: nat) -> nat {
    if a <= b {
        a
    } else {
        b
    }
}

/// The character a cell shows: a blank cell shows a space.
pub open spec fn shown(c: Cell) -> char {
    if c.ch == '\0' {
        ' '
    } else {
        c.ch
    }
}

/// The characters a run of cells shows, continuation cells skipped.
pub open spec fn visible(cells: Seq<Cell>) -> Seq<char>
    decreases cells.len(),
{
    if cells.len() == 0 {
        Seq::empty()
    } else if cells.last().wide_cont {
        visible(cells.drop_last())
    } else {
        visible(cells.drop_last()).push(shown(cells.last()))
    }
}

/// Length of a run of cells without its trailing blank (`'\0'`) cells.
pub open spec fn content_len(cells: Seq<Cell>) -> nat
    decreases cells.len(),
{
    if cells.len() == 0 {
        0
    } else if cells.last().ch != '\0' {
        cells.len()
    } else {
        content_len(cells.drop_last())
    }
}

/// What a row shows up to its last non-blank cell.
pub open spec fn line_of(cells: Seq<Cell>) -> Seq<char> {
    visible(cells.take(content_len(cells) as int))
}

/// Keeps the newest `SCROLLBACK_MAX` lines.
pub open spec fn capped(sb: Seq<Seq<char>>) -> Seq<Seq<char>> {
    if sb.len() > SCROLLBACK_MAX {
        sb.skip(sb.len() - SCROLLBACK_MAX)
    } else {
        sb
    }
}

/// Blank every cell with index in `lo..hi`.
pub open spec fn fill_blank(cells: Seq<Cell>, lo: int, hi: int) -> Seq<Cell> {
    Seq::new(cells.len(), |i: int| if lo <= i < hi { blank() } else { cells[i] })
}

/// Next tab stop after column `c` (multiples of 8).
pub open spec fn tab_stop(c: nat) -> nat {
    (c + 8 - c % 8) as nat
}

impl Grid {
    /// The invariant every screen keeps.
    pub open spec fn wf(self) -> bool {
        &&& self.cells.len() == self.cols * self.rows
        &&& (if self.rows == 0 {
            self.cursor_row == 0
        } else {
            self.cursor_row < self.rows
        })
        &&& (if self.cols == 0 {
            self.cursor_col == 0
        } else {
            self.cursor_col < self.cols
        })
        &&& self.scrollback.len() <= SCROLLBACK_MAX
    }

    pub open spec fn idx(self, r: nat, c: nat) -> int {
        (r * self.cols + c) as int
    }

    pub open spec fn cell(self, r: nat, c: nat) -> Cell {
        self.cells[self.idx(r, c)]
    }

    /// The cells of row `r`.
    pub open spec fn row(self, r: nat) -> Seq<Cell> {
        self.cells.subrange((r * self.cols) as int, (r * self.cols + self.cols) as int)
    }

    /// Row `r` as text: trailing blanks trimmed, continuation cells skipped.
    pub open spec fn row_text(self, r: nat) -> Seq<char> {
        trim_end(line_of(self.row(r)))
    }

    /// Rows `0..k`, each followed by a newline.
    pub open spec fn lines_upto(self, k: nat) -> Seq<char>
        decreases k,
    {
        if k == 0 {
            Seq::empty()
        } else {
            self.lines_upto((k - 1) as nat) + line_of(self.row((k - 1) as nat)).push('\n')
        }
    }

    /// The plain-text view of the whole grid.
    pub open spec fn text(self) -> Seq<char> {
        trim_end(self.lines_upto(self.rows))
    }

    /// Whether any cell holds a character.
    pub open spec fn has_output(self) -> bool {
        exists|i: int| 0 <= i < self.cells.len() && #[trigger] self.cells[i].ch != '\0'
    }

    pub open spec fn with_cells(self, cells: Seq<Cell>) -> Grid {
        Grid { cells, ..self }
    }

    pub open spec fn with_scrollback(self, scrollback: Seq<Seq<char>>) -> Grid {
        Grid { scrollback, ..self }
    }

    pub open spec fn with_cursor(self, r: nat, c: nat) -> Grid {
        Grid { cursor_row: r, cursor_col: c, wrap_pending: false, ..self }
    }

    /// The cell at index `i` of the grid resized to `cols` columns: the old
    /// cell at the same row and column when there was one, else a blank.
    pub open spec fn resize_cell(self, cols: nat, i: int) -> Cell {
        let r = (i / (cols as int)) as nat;
        let c = (i % (cols as int)) as nat;
        if r < self.rows && c < self.cols {
            self.cell(r, c)
        } else {
            blank()
        }
    }

    /// The grid resized to `cols`×`rows`: overlapping cells are kept, rows cut
    /// off at the bottom go to the scrollback, the cursor is clamped.
    pub open spec fn resized(self, cols: nat, rows: nat) -> Grid {
        Grid {
            cols,
            rows,
            cells: Seq::new(cols * rows, |i: int| self.resize_cell(cols, i)),
            cursor_row: min_nat(self.cursor_row, sat_dec(rows)),
            cursor_col: min_nat(self.cursor_col, sat_dec(cols)),
            scrollback: if rows < self.rows {
                capped(
                    self.scrollback + Seq::new(
                        (self.rows - rows) as nat,
                        |i: int| self.row_text((rows + i) as nat),
                    ),
                )
            } else {
                self.scrollback
            },
            ..self
        }
    }

    /// Every occurrence of `pat` in the text of rows `0..k`, as
    /// `(row, character offset)`, row by row and left to right.
    pub open spec fn find_hits(self, pat: Seq<char>, k: nat) -> Seq<(usize, usize)>
        decreases k,
    {
        if k == 0 {
            Seq::empty()
        } else {
            let line = self.row_text((k - 1) as nat);
            self.find_hits(pat, (k - 1) as nat) + occurrences(line, pat, line.len()).map_values(
                |p: nat| ((k - 1) as usize, p as usize),
            )
        }
    }

    /// The scrollback lines joined with newlines (oldest first).
    pub open spec fn scrollback_text(self) -> Seq<char> {
        join_lines(self.scrollback)
    }

    /// Scrollback followed by the current screen, joined with a newline.
    pub open spec fn scrollback_with_screen(self) -> Seq<char> {
        let sb = self.scrollback_text();
        let screen = self.text();
        if sb.len() == 0 {
            screen
        } else if screen.len() == 0 {
            sb
        } else {
            sb + seq!['\n'] + screen
        }
    }

    /// SU: shift the grid up by `n` rows (at most the screen height), keeping
    /// the rows that leave the top in the scrollback.
    pub open spec fn scroll_up(self, n: nat) -> Grid {
        if self.rows == 0 || self.cols == 0 {
            self
        } else {
            let k = min_nat(n, self.rows);
            Grid {
                scrollback: capped(self.scrollback + Seq::new(k, |i: int| self.row_text(i as nat))),
                cells: Seq::new(
                    self.cells.len(),
                    |i: int|
                        if i < (self.rows - k) * self.cols {
                            self.cells[i + k * self.cols]
                        } else {
                            blank()
                        },
                ),
                ..self
            }
        }
    }

    /// Move to the start of the next line, scrolling at the bottom.
    pub open spec fn line_wrap(self) -> Grid {
        let g = Grid { cursor_col: 0, ..self };
        if self.cursor_row + 1 >= self.rows {
            g.scroll_up(1)
        } else {
            Grid { cursor_row: self.cursor_row + 1, ..g }
        }
    }

    /// LF / VT / FF.
    pub open spec fn newline(self) -> Grid {
        Grid { wrap_pending: false, ..self }.line_wrap()
    }

    /// The grid after the wraps that precede writing a character `w` wide: a
    /// pending wrap is taken, then the line is wrapped if the character does
    /// not fit in what is left of it.
    pub open spec fn wrap_for(self, w: nat) -> Grid {
        let g1 = if self.wrap_pending {
            Grid { wrap_pending: false, ..self.line_wrap() }
        } else {
            self
        };
        if g1.cursor_col + w > g1.cols {
            g1.line_wrap()
        } else {
            g1
        }
    }

    /// Draw `ch`, `w` columns wide, at the cursor with the current pen (no
    /// wrapping): a wide glyph whose half is overwritten loses its other half,
    /// a wide glyph marks its right neighbour as continuation, and the cursor
    /// advances, parking on the last column with a pending wrap.
    pub open spec fn draw(self, ch: char, w: nat) -> Grid {
        let c = self.cursor_col;
        let nc = c + w;
        Grid {
            cells: draw_cells(self.cells, self.idx(self.cursor_row, c), c, self.cols, ch, w, self.pen),
            cursor_col: if nc >= self.cols {
                (self.cols - 1) as nat
            } else {
                nc
            },
            wrap_pending: if nc >= self.cols {
                true
            } else {
                self.wrap_pending
            },
            ..self
        }
    }

    /// Write `ch`, `w` columns wide, at the cursor with the current pen.
    /// Zero-width characters are dropped.
    pub open spec fn put(self, ch: char, w: nat) -> Grid {
        if self.cols == 0 || self.rows == 0 || w == 0 {
            self
        } else {
            self.wrap_for(w).draw(ch, w)
        }
    }

    /// A C0 control byte.
    pub open spec fn execute(self, b: u8) -> Grid {
        if b == 10 || b == 11 || b == 12 {
            self.newline()
        } else if b == 13 {
            Grid { cursor_col: 0, wrap_pending: false, ..self }
        } else if b == 8 {
            Grid { cursor_col: sat_dec(self.cursor_col), wrap_pending: false, ..self }
        } else if b == 9 {
            Grid {
                cursor_col: min_nat(tab_stop(self.cursor_col), sat_dec(self.cols)),
                wrap_pending: false,
                ..self
            }
        } else {
            self
        }
    }

    /// ED with the given mode: 0 cursor to end, 1 start to cursor, else all.
    pub open spec fn erase_display(self, mode: u16) -> Grid {
        let here = self.idx(self.cursor_row, self.cursor_col);
        if mode == 0 {
            self.with_cells(fill_blank(self.cells, here, self.cells.len() as int))
        } else if mode == 1 {
            self.with_cells(fill_blank(self.cells, 0, here + 1))
        } else {
            self.with_cells(fill_blank(self.cells, 0, self.cells.len() as int))
        }
    }

    /// EL with the given mode: 0 cursor to end of line, 1 start of line to
    /// cursor, 2 whole line; other modes do nothing.
    pub open spec fn erase_line(self, mode: u16) -> Grid {
        let start = (self.cursor_row * self.cols) as int;
        let here = self.idx(self.cursor_row, self.cursor_col);
        if mode == 0 {
            self.with_cells(fill_blank(self.cells, here, start + self.cols))
        } else if mode == 1 {
            self.with_cells(fill_blank(self.cells, start, here + 1))
        } else if mode == 2 {
            self.with_cells(fill_blank(self.cells, start, start + self.cols))
        } else {
            self
        }
    }

    /// A CSI sequence with final byte `action`.
    pub open spec fn csi(self, params: Seq<Seq<u16>>, action: char) -> Grid {
        let p0 = first_of(params, 0);
        let p1 = first_of(params, 1);
        let n = or_default(p0, 1) as nat;
        let row = sat_dec(or_default(p0, 1) as nat);
        let col = sat_dec(or_default(p1, 1) as nat);
        if action == 'A' {
            self.with_cursor(sat_sub(self.cursor_row, n), self.cursor_col)
        } else if action == 'B' {
            self.with_cursor(min_nat(self.cursor_row + n, sat_dec(self.rows)), self.cursor_col)
        } else if action == 'C' {
            self.with_cursor(self.cursor_row, min_nat(self.cursor_col + n, sat_dec(self.cols)))
        } else if action == 'D' {
            self.with_cursor(self.cursor_row, sat_sub(self.cursor_col, n))
        } else if action == 'G' {
            self.with_cursor(self.cursor_row, min_nat(row, sat_dec(self.cols)))
        } else if action == 'd' {
            self.with_cursor(min_nat(row, sat_dec(self.rows)), self.cursor_col)
        } else if action == 'H' || action == 'f' {
            self.with_cursor(min_nat(row, sat_dec(self.rows)), min_nat(col, sat_dec(self.cols)))
        } else if action == 'J' {
            self.erase_display(or_default(p0, 0))
        } else if action == 'K' {
            self.erase_line(or_default(p0, 0))
        } else if action == 'S' {
            self.scroll_up(n)
        } else if action == 'm' {
            Grid { pen: sgr(self.pen, flat_params(params), 0), ..self }
        } else {
            self
        }
    }
}

/// The cells after drawing `ch` (`w` columns wide, with `pen`) at index `i`,
/// which is column `c` of a `cols`-wide row.
pub open spec fn draw_cells(
    cells: Seq<Cell>,
    i: int,
    c: nat,
    cols: nat,
    ch: char,
    w: nat,
    pen: Pen,
) -> Seq<Cell> {
    let cells3 = if cells[i].wide_cont && c > 0 {
        cells.update(i - 1, Cell { ch: '\0', ..cells[i - 1] })
    } else {
        cells
    };
    let cells4 = if w == 1 && c + 1 < cols && cells3[i + 1].wide_cont {
        cells3.update(i + 1, Cell { ch: '\0', wide_cont: false, ..cells3[i + 1] })
    } else {
        cells3
    };
    let cells5 = cells4.update(
        i,
        Cell {
            ch,
            fg: pen.fg,
            bg: pen.bg,
            bold: pen.bold,
            italic: pen.italic,
            underline: pen.underline,
            wide_cont: false,
        },
    );
    if w == 2 && c + 1 < cols {
        cells5.update(i + 1, Cell { ch: '\0', wide_cont: true, bg: pen.bg, ..cells5[i + 1] })
    } else {
        cells5
    }
}

/// `pat` occurs in `s` starting at `i`.
pub open spec fn occurs_at(s: Seq<char>, pat: Seq<char>, i: int) -> bool {
    0 <= i && i + pat.len() <= s.len() && s.subrange(i, i + pat.len()) == pat
}

/// The positions below `n`, in increasing order, at which `pat` occurs
/// in `s` (occurrences may overlap).
pub open spec fn occurrences(s: Seq<char>, pat: Seq<char>, n: nat) -> Seq<nat>
    decreases n,
{
    if n == 0 {
        Seq::empty()
    } else {
        let prev = occurrences(s, pat, (n - 1) as nat);
        if occurs_at(s, pat, n - 1) {
            prev.push((n - 1) as nat)
        } else {
            prev
        }
    }
}

/// Lines joined with `\n`.
pub open spec fn join_lines(lines: Seq<Seq<char>>) -> Seq<char>
    decreases lines.len(),
{
    if lines.len() == 0 {
        Seq::empty()
    } else if lines.len() == 1 {
        lines[0]
    } else {
        join_lines(lines.drop_last()) + seq!['\n'] + lines.last()
    }
}

/// The CSI parameters as plain sequences.
pub open spec fn params_view(params: Seq<Vec<u16>>) -> Seq<Seq<u16>> {
    params.map_values(|p: Vec<u16>| p@)
}

impl Grid {
    /// Apply one parser action. A grid with no rows or no columns ignores
    /// everything; OSC strings leave the grid unchanged.
    pub open spec fn perform(self, a: VtAction) -> Grid {
        if self.cols == 0 || self.rows == 0 {
            self
        } else {
            match a {
                VtAction::Print(c) => self.put(c, width_of(c)),
                VtAction::Execute(b) => self.execute(b),
                VtAction::Csi { params, action, .. } => self.csi(params_view(params@), action),
                VtAction::Osc { .. } => self,
            }
        }
    }

    /// Apply a sequence of parser actions in order.
    pub open spec fn perform_all(self, acts: Seq<VtAction>) -> Grid
        decreases acts.len(),
    {
        if acts.len() == 0 {
            self
        } else {
            self.perform_all(acts.drop_last()).perform(acts.last())
        }
    }
}

/// The first value of parameter `k`, if present.
pub open spec fn first_of(params: Seq<Seq<u16>>, k: int) -> Option<u16> {
    if k < params.len() && params[k].len() > 0 {
        Some(params[k][0])
    } else {
        None
    }
}

pub open spec fn or_default(v: Option<u16>, d: u16) -> u16 {
    match v {
        Some(x) => x,
        None => d,
    }
}

/// All parameters and sub-parameters, in order.
pub open spec fn flat_params(params: Seq<Seq<u16>>) -> Seq<u16>
    decreases params.len(),
{
    if params.len() == 0 {
        Seq::empty()
    } else {
        flat_params(params.drop_last()) + params.last()
    }
}

/// One plain SGR code.
pub open spec fn sgr_code(pen: Pen, v: u16) -> Pen {
    if v == 0 {
        default_pen()
    } else if v == 1 {
        Pen { bold: true, ..pen }
    } else if v == 3 {
        Pen { italic: true, ..pen }
    } else if v == 4 {
        Pen { underline: true, ..pen }
    } else if v == 22 {
        Pen { bold: false, ..pen }
    } else if v == 23 {
        Pen { italic: false, ..pen }
    } else if v == 24 {
        Pen { underline: false, ..pen }
    } else if 30 <= v <= 37 {
        Pen { fg: (v - 30) as u8, ..pen }
    } else if 40 <= v <= 47 {
        Pen { bg: (v - 40) as u8, ..pen }
    } else if 90 <= v <= 97 {
        Pen { fg: (v - 90 + 8) as u8, ..pen }
    } else if 100 <= v <= 107 {
        Pen { bg: (v - 100 + 8) as u8, ..pen }
    } else if v == 39 {
        Pen { fg: 7, ..pen }
    } else if v == 49 {
        Pen { bg: 0, ..pen }
    } else {
        pen
    }
}

/// The pen after applying the SGR codes `flat[idx..]`. Extended colours
/// (`38;5;n`, `48;5;n`) set the pen only for palette indices below 16;
/// truecolour (`38;2;r;g;b`) is consumed without effect.
pub open spec fn sgr(pen: Pen, flat: Seq<u16>, idx: nat) -> Pen
    decreases sat_sub(flat.len(), idx),
{
    if idx >= flat.len() {
        pen
    } else {
        let v = flat[idx as int];
        if v == 38 || v == 48 {
            let j = idx + 1;
            if j >= flat.len() {
                pen
            } else if flat[j as int] == 5 {
                let k = j + 1;
                let pen2 = if k < flat.len() && flat[k as int] < 16 {
                    if v == 38 {
                        Pen { fg: flat[k as int] as u8, ..pen }
                    } else {
                        Pen { bg: flat[k as int] as u8, ..pen }
                    }
                } else {
                    pen
                };
                sgr(pen2, flat, k + 1)
            } else if flat[j as int] == 2 {
                sgr(pen, flat, j + 4)
            } else {
                sgr(pen, flat, j + 1)
            }
        } else {
            sgr(sgr_code(pen, v), flat, idx + 1)
        }
    }
}

/// Only the cursor and the pending-wrap flag differ between `a` and `b`.
pub open spec fn same_but_cursor(a: Grid, b: Grid) -> bool {
    &&& a.cols == b.cols
    &&& a.rows == b.rows
    &&& a.cells == b.cells
    &&& a.pen == b.pen
    &&& a.scrollback == b.scrollback
}

/// The cursor movements: CSI `n A`, `n B`, `n C` and `n D` move the cursor
/// up, down, right and left by `n` (the first parameter, 1 when there is
/// none), stopping at the grid's edge, and CSI `r ; c H` puts it at 1-based
/// row `r` and column `c` (1 when missing or 0), kept inside the grid. Each
/// keeps the other coordinate where it says so, drops a pending wrap and
/// changes nothing but the cursor.
pub proof fn law_cursor_moves(g: Grid, params: Seq<Seq<u16>>)
    ensures
        ({
            let n: int = if params.len() > 0 && params[0].len() > 0 {
                params[0][0] as int
            } else {
                1
            };
            let p: int = if params.len() > 0 && params[0].len() > 0 && params[0][0] > 0 {
                params[0][0] as int
            } else {
                1
            };
            let q: int = if params.len() > 1 && params[1].len() > 0 && params[1][0] > 0 {
                params[1][0] as int
            } else {
                1
            };
            let last_row: int = if g.rows > 0 { g.rows - 1 } else { 0 };
            let last_col: int = if g.cols > 0 { g.cols - 1 } else { 0 };
            let up = g.csi(params, 'A');
            let down = g.csi(params, 'B');
            let right = g.csi(params, 'C');
            let left = g.csi(params, 'D');
            let home = g.csi(params, 'H');
            &&& up.cursor_row == (if g.cursor_row >= n { g.cursor_row - n } else { 0 })
            &&& up.cursor_col == g.cursor_col
            &&& down.cursor_row == (if g.cursor_row + n <= last_row { g.cursor_row + n } else { last_row })
            &&& down.cursor_col == g.cursor_col
            &&& right.cursor_col == (if g.cursor_col + n <= last_col { g.cursor_col + n } else { last_col })
            &&& right.cursor_row == g.cursor_row
            &&& left.cursor_col == (if g.cursor_col >= n { g.cursor_col - n } else { 0 })
            &&& left.cursor_row == g.cursor_row
            &&& home.cursor_row == (if p - 1 <= last_row { p - 1 } else { last_row })
            &&& home.cursor_col == (if q - 1 <= last_col { q - 1 } else { last_col })
            &&& !up.wrap_pending && !down.wrap_pending && !right.wrap_pending
            &&& !left.wrap_pending && !home.wrap_pending
            &&& same_but_cursor(up, g) && same_but_cursor(down, g) && same_but_cursor(right, g)
            &&& same_but_cursor(left, g) && same_but_cursor(home, g)
        }),
{
}

/// Select Graphic Rendition with one code, CSI `v m`: 0 resets the pen to
/// white on black with no attributes; 1, 3 and 4 turn on bold, italic and
/// underline and 22, 23 and 24 turn them off; 30-37 and 40-47 pick the
/// foreground and background among the eight standard colours in order,
/// and 90-97 and 100-107 among their bright forms (8-15); 39 and 49 restore
/// the default foreground (7) and background (0). Each changes only what it
/// names, and only the pen.
pub proof fn law_sgr_codes(g: Grid, v: u16)
    ensures
        ({
            let p = g.csi(seq![seq![v]], 'm').pen;
            let q = g.pen;
            &&& v == 0 ==> p == Pen { fg: 7, bg: 0, bold: false, italic: false, underline: false }
            &&& v == 1 ==> p == Pen { bold: true, ..q }
            &&& v == 3 ==> p == Pen { italic: true, ..q }
            &&& v == 4 ==> p == Pen { underline: true, ..q }
            &&& v == 22 ==> p == Pen { bold: false, ..q }
            &&& v == 23 ==> p == Pen { italic: false, ..q }
            &&& v == 24 ==> p == Pen { underline: false, ..q }
            &&& 30 <= v < 38 ==> p.fg == v - 30 && p.bg == q.bg && p.bold == q.bold && p.italic == q.italic
                && p.underline == q.underline
            &&& 40 <= v < 48 ==> p.bg == v - 40 && p.fg == q.fg && p.bold == q.bold && p.italic == q.italic
                && p.underline == q.underline
            &&& 90 <= v < 98 ==> p.fg == 8 + (v - 90) && p.bg == q.bg && p.bold == q.bold
            &&& 100 <= v < 108 ==> p.bg == 8 + (v - 100) && p.fg == q.fg && p.bold == q.bold
            &&& v == 39 ==> p == Pen { fg: 7, ..q }
            &&& v == 49 ==> p == Pen { bg: 0, ..q }
            &&& same_but_cursor(g.csi(seq![seq![v]], 'm'), Grid { pen: p, ..g })
            &&& g.csi(seq![seq![v]], 'm').cursor_row == g.cursor_row
            &&& g.csi(seq![seq![v]], 'm').cursor_col == g.cursor_col
        }),
{
    let params = seq![seq![v]];
    assert(flat_params(Seq::<Seq<u16>>::empty()) =~= Seq::<u16>::empty());
    assert(params.last() == seq![v]);
    assert(params.drop_last() =~= Seq::<Seq<u16>>::empty());
    assert(flat_params(params) =~= seq![v]);
    assert(sgr(sgr_code(g.pen, v), seq![v], 1) == sgr_code(g.pen, v));
}

/// The 256-colour forms `38;5;n` and `48;5;n` set the foreground or the
/// background to palette colour `n` when `n` is one of the sixteen the
/// screen keeps, and leave the pen as it was otherwise.
pub proof fn law_sgr_palette(g: Grid, n: u16)
    ensures
        ({
            let fg = g.csi(seq![seq![38u16], seq![5u16], seq![n]], 'm').pen;
            let bg = g.csi(seq![seq![48u16], seq![5u16], seq![n]], 'm').pen;
            &&& n < 16 ==> fg == Pen { fg: n as u8, ..g.pen } && bg == Pen { bg: n as u8, ..g.pen }
            &&& n >= 16 ==> fg == g.pen && bg == g.pen
        }),
{
    let a = seq![seq![38u16], seq![5u16], seq![n]];
    let b = seq![seq![48u16], seq![5u16], seq![n]];
    assert(flat_params(Seq::<Seq<u16>>::empty()) =~= Seq::<u16>::empty());
    assert(seq![seq![38u16]].last() == seq![38u16]);
    assert(seq![seq![48u16]].last() == seq![48u16]);
    assert(seq![seq![38u16], seq![5u16]].last() == seq![5u16]);
    assert(seq![seq![48u16], seq![5u16]].last() == seq![5u16]);
    assert(a.last() == seq![n]);
    assert(b.last() == seq![n]);
    assert(seq![seq![38u16]].drop_last() =~= Seq::<Seq<u16>>::empty());
    assert(seq![seq![38u16], seq![5u16]].drop_last() =~= seq![seq![38u16]]);
    assert(a.drop_last() =~= seq![seq![38u16], seq![5u16]]);
    assert(flat_params(seq![seq![38u16]]) =~= seq![38u16]);
    assert(flat_params(seq![seq![38u16], seq![5u16]]) =~= seq![38u16, 5u16]);
    assert(flat_params(a) =~= seq![38u16, 5u16, n]);
    assert(seq![seq![48u16]].drop_last() =~= Seq::<Seq<u16>>::empty());
    assert(seq![seq![48u16], seq![5u16]].drop_last() =~= seq![seq![48u16]]);
    assert(b.drop_last() =~= seq![seq![48u16], seq![5u16]]);
    assert(flat_params(seq![seq![48u16]]) =~= seq![48u16]);
    assert(flat_params(seq![seq![48u16], seq![5u16]]) =~= seq![48u16, 5u16]);
    assert(flat_params(b) =~= seq![48u16, 5u16, n]);
    let fa = seq![38u16, 5u16, n];
    let fb = seq![48u16, 5u16, n];
    assert(fa[0] == 38u16 && fa[1] == 5u16 && fa[2] == n);
    assert(fb[0] == 48u16 && fb[1] == 5u16 && fb[2] == n);
    let pa = if n < 16 { Pen { fg: n as u8, ..g.pen } } else { g.pen };
    let pb = if n < 16 { Pen { bg: n as u8, ..g.pen } } else { g.pen };
    assert(sgr(pa, fa, 3) == pa);
    assert(sgr(pb, fb, 3) == pb);
    assert(sgr(g.pen, fa, 0) == pa);
    assert(sgr(g.pen, fb, 0) == pb);
}

/// The C0 controls: CR returns to column 0, BS steps one column left
/// (not past the first), TAB jumps to the next multiple of 8 (not past the
/// last column), and LF, VT and FF go down one row, to column 0, when that
/// row is inside the grid. Each keeps the cells and drops a pending wrap.
pub proof fn law_control_bytes(g: Grid)
    ensures
        ({
            let cr = g.execute(13);
            let bs = g.execute(8);
            let ht = g.execute(9);
            let last_col: int = if g.cols > 0 { g.cols - 1 } else { 0 };
            let next_tab: int = ((g.cursor_col / 8 + 1) * 8) as int;
            &&& cr.cursor_col == 0 && cr.cursor_row == g.cursor_row && !cr.wrap_pending
            &&& bs.cursor_col == (if g.cursor_col > 0 { g.cursor_col - 1 } else { 0 }) && bs.cursor_row == g.cursor_row
                && !bs.wrap_pending
            &&& ht.cursor_col == (if next_tab <= last_col { next_tab } else { last_col }) && ht.cursor_row
                == g.cursor_row && !ht.wrap_pending
            &&& same_but_cursor(cr, g) && same_but_cursor(bs, g) && same_but_cursor(ht, g)
            &&& forall|b: u8|
                (b == 10 || b == 11 || b == 12) && g.cursor_row + 1 < g.rows ==> {
                    let lf = #[trigger] g.execute(b);
                    &&& lf.cursor_row == g.cursor_row + 1
                    &&& lf.cursor_col == 0
                    &&& !lf.wrap_pending
                    &&& same_but_cursor(lf, g)
                }
        }),
{
    assert(g.cursor_col + 8 - g.cursor_col % 8 == (g.cursor_col / 8 + 1) * 8);
}

/// Row-major order: for columns inside a `cols`-wide row, the index of
/// `(r, c)` is below that of `(r2, c2)` exactly when `(r, c)` comes first.
pub proof fn lemma_row_major_order(r: nat, c: nat, r2: nat, c2: nat, cols: nat)
    requires
        c < cols,
        c2 < cols,
    ensures
        (r * cols + c < r2 * cols + c2) <==> (r < r2 || (r == r2 && c < c2)),
{
    if r < r2 {
        assert(r * cols + c < r2 * cols + c2) by (nonlinear_arith)
            requires
                r < r2,
                c < cols,
        ;
    } else if r > r2 {
        assert(r2 * cols + c2 < r * cols + c) by (nonlinear_arith)
            requires
                r2 < r,
                c2 < cols,
        ;
    }
}

/// Erase in line, CSI `m K`: mode 0 blanks the cursor's row from the cursor
/// to its end, mode 1 from its start to the cursor (inclusive), mode 2 the
/// whole row; every other cell, and the cursor, stay as they were.
pub proof fn law_erase_in_line(g: Grid, mode: u16)
    requires
        g.wf(),
        g.cols > 0,
        g.rows > 0,
    ensures
        ({
            let e = g.csi(seq![seq![mode]], 'K');
            &&& e.cells.len() == g.cells.len()
            &&& e.cursor_row == g.cursor_row && e.cursor_col == g.cursor_col && e.pen == g.pen
            &&& forall|r: nat, c: nat|
                r < g.rows && c < g.cols ==> #[trigger] e.cell(r, c) == if r == g.cursor_row && ((mode == 0
                    && c >= g.cursor_col) || (mode == 1 && c <= g.cursor_col) || mode == 2) {
                    blank()
                } else {
                    g.cell(r, c)
                }
        }),
{
    let e = g.csi(seq![seq![mode]], 'K');
    assert(first_of(seq![seq![mode]], 0) == Some(mode));
    assert forall|r: nat, c: nat| r < g.rows && c < g.cols implies #[trigger] e.cell(r, c) == if r
        == g.cursor_row && ((mode == 0 && c >= g.cursor_col) || (mode == 1 && c <= g.cursor_col) || mode
        == 2) {
        blank()
    } else {
        g.cell(r, c)
    } by {
        lemma_row_major_order(r, c, g.cursor_row, g.cursor_col, g.cols);
        lemma_row_major_order(g.cursor_row, g.cursor_col, r, c, g.cols);
        lemma_row_major_order(r, c, g.cursor_row, 0, g.cols);
        lemma_row_major_order(r, c, g.cursor_row + 1, 0, g.cols);
        assert((g.cursor_row + 1) * g.cols == g.cursor_row * g.cols + g.cols) by (nonlinear_arith);
        assert(r * g.cols + c < g.rows * g.cols) by (nonlinear_arith)
            requires
                r < g.rows,
                c < g.cols,
        ;
    }
}

/// Erase in display, CSI `m J`: mode 0 blanks from the cursor to the end of
/// the screen, mode 1 from the top left to the cursor (inclusive), and any
/// other mode the whole screen, in reading order; every other cell, and
/// the cursor, stay as they were.
pub proof fn law_erase_in_display(g: Grid, mode: u16)
    requires
        g.wf(),
        g.cols > 0,
        g.rows > 0,
    ensures
        ({
            let e = g.csi(seq![seq![mode]], 'J');
            &&& e.cells.len() == g.cells.len()
            &&& e.cursor_row == g.cursor_row && e.cursor_col == g.cursor_col && e.pen == g.pen
            &&& forall|r: nat, c: nat|
                r < g.rows && c < g.cols ==> #[trigger] e.cell(r, c) == if (mode == 0 && (r > g.cursor_row || (r
                    == g.cursor_row && c >= g.cursor_col))) || (mode == 1 && (r < g.cursor_row || (r == g.cursor_row
                    && c <= g.cursor_col))) || (mode != 0 && mode != 1) {
                    blank()
                } else {
                    g.cell(r, c)
                }
        }),
{
    let e = g.csi(seq![seq![mode]], 'J');
    assert(first_of(seq![seq![mode]], 0) == Some(mode));
    assert forall|r: nat, c: nat| r < g.rows && c < g.cols implies #[trigger] e.cell(r, c) == if (mode == 0
        && (r > g.cursor_row || (r == g.cursor_row && c >= g.cursor_col))) || (mode == 1 && (r < g.cursor_row
        || (r == g.cursor_row && c <= g.cursor_col))) || (mode != 0 && mode != 1) {
        blank()
    } else {
        g.cell(r, c)
    } by {
        lemma_row_major_order(r, c, g.cursor_row, g.cursor_col, g.cols);
        lemma_row_major_order(g.cursor_row, g.cursor_col, r, c, g.cols);
        assert(r * g.cols + c < g.rows * g.cols) by (nonlinear_arith)
            requires
                r < g.rows,
                c < g.cols,
        ;
    }
}

/// The cell a character `ch` drawn with `pen` becomes.
pub open spec fn pen_cell(ch: char, pen: Pen) -> Cell {
    Cell {
        ch,
        fg: pen.fg,
        bg: pen.bg,
        bold: pen.bold,
        italic: pen.italic,
        underline: pen.underline,
        wide_cont: false,
    }
}

/// Printing a character `w` columns wide (1, or 2 for a wide glyph) that
/// fits on the cursor's row: it lands at the cursor in the pen's colours
/// and attributes; a wide glyph marks the next cell as its continuation;
/// the cursor moves right by `w`, or, when that reaches the end of the row,
/// stays on the last column with a wrap pending; no cell of another row,
/// and no cell of the row outside the columns next to the glyph, changes.
pub proof fn law_print_in_row(g: Grid, ch: char, w: nat)
    requires
        g.wf(),
        g.cols > 0,
        g.rows > 0,
        !g.wrap_pending,
        w == 1 || w == 2,
        g.cursor_col + w <= g.cols,
    ensures
        ({
            let p = g.put(ch, w);
            let r0 = g.cursor_row;
            let c0 = g.cursor_col;
            &&& p.cells.len() == g.cells.len()
            &&& p.cell(r0, c0) == pen_cell(ch, g.pen)
            &&& w == 2 ==> p.cell(r0, c0 + 1).wide_cont && p.cell(r0, c0 + 1).ch == '\0' && p.cell(r0, c0 + 1).bg
                == g.pen.bg
            &&& c0 + w < g.cols ==> p.cursor_row == r0 && p.cursor_col == c0 + w && !p.wrap_pending
            &&& c0 + w == g.cols ==> p.cursor_row == r0 && p.cursor_col == g.cols - 1 && p.wrap_pending
            &&& p.pen == g.pen && p.scrollback == g.scrollback
            &&& forall|r: nat, c: nat|
                r < g.rows && c < g.cols && (r != r0 || c + 1 < c0 || c > c0 + w) ==> #[trigger] p.cell(r, c)
                    == g.cell(r, c)
        }),
{
    let p = g.put(ch, w);
    let r0 = g.cursor_row;
    let c0 = g.cursor_col;
    let i = g.idx(r0, c0);
    assert(g.wrap_for(w) == g);
    assert(r0 * g.cols + c0 < g.rows * g.cols) by (nonlinear_arith)
        requires
            r0 < g.rows,
            c0 < g.cols,
    ;
    assert(r0 * g.cols + g.cols <= g.rows * g.cols) by (nonlinear_arith)
        requires
            r0 < g.rows,
    ;
    assert forall|r: nat, c: nat|
        r < g.rows && c < g.cols && (r != r0 || c + 1 < c0 || c > c0 + w) implies #[trigger] p.cell(r, c)
            == g.cell(r, c) by {
        lemma_row_major_order(r, c, r0, c0, g.cols);
        lemma_row_major_order(r0, c0, r, c, g.cols);
        if c0 > 0 {
            lemma_row_major_order(r, c, r0, (c0 - 1) as nat, g.cols);
            lemma_row_major_order(r0, (c0 - 1) as nat, r, c, g.cols);
        }
        if c0 + 1 < g.cols {
            lemma_row_major_order(r, c, r0, c0 + 1, g.cols);
            lemma_row_major_order(r0, c0 + 1, r, c, g.cols);
        }
        assert(r * g.cols + c < g.rows * g.cols) by (nonlinear_arith)
            requires
                r < g.rows,
                c < g.cols,
        ;
    }
}

/// A character printed while a wrap is pending goes to the start of the
/// next row when there is one: the cursor first moves there.
pub proof fn law_print_after_pending_wrap(g: Grid, ch: char, w: nat)
    requires
        g.wf(),
        g.cols >= 2,
        g.wrap_pending,
        g.cursor_row + 1 < g.rows,
        w == 1 || w == 2,
    ensures
        g.put(ch, w).cell(g.cursor_row + 1, 0) == pen_cell(ch, g.pen),
        g.put(ch, w).cursor_row == g.cursor_row + 1,
        g.put(ch, w).cursor_col == (if w < g.cols { w } else { (g.cols - 1) as nat }),
{
    let g1 = Grid { wrap_pending: false, ..g.line_wrap() };
    assert(g.wrap_for(w) == g1);
    assert(g1.cursor_row == g.cursor_row + 1 && g1.cursor_col == 0);
    law_print_in_row(g1, ch, w);
}

/// A line feed on the bottom row scrolls: every row moves up one, the top
/// row's text goes to the end of the scrollback (which keeps the newest
/// `SCROLLBACK_MAX` lines), the bottom row comes in blank, and the cursor
/// stays on the bottom row, at column 0.
pub proof fn law_line_feed_scrolls(g: Grid)
    requires
        g.wf(),
        g.cols > 0,
        g.rows > 0,
        g.cursor_row + 1 == g.rows,
    ensures
        ({
            let lf = g.execute(10);
            &&& lf.cursor_row == g.cursor_row && lf.cursor_col == 0 && !lf.wrap_pending
            &&& lf.cells.len() == g.cells.len()
            &&& forall|r: nat, c: nat|
                r + 1 < g.rows && c < g.cols ==> #[trigger] lf.cell(r, c) == g.cell(r + 1, c)
            &&& forall|c: nat| c < g.cols ==> #[trigger] lf.cell((g.rows - 1) as nat, c) == blank()
            &&& lf.scrollback.len() == (if g.scrollback.len() < SCROLLBACK_MAX {
                g.scrollback.len() + 1
            } else {
                SCROLLBACK_MAX as nat
            })
            &&& lf.scrollback.last() == g.row_text(0)
            &&& g.scrollback.len() < SCROLLBACK_MAX ==> lf.scrollback == g.scrollback.push(g.row_text(0))
        }),
{
    let lf = g.execute(10);
    let g1 = Grid { cursor_col: 0, wrap_pending: false, ..g };
    assert(lf == g1.scroll_up(1));
    assert(g1.row_text(0) == g.row_text(0));
    let added = Seq::new(1, |i: int| g1.row_text(i as nat));
    assert(added =~= seq![g.row_text(0)]);
    assert(g.scrollback + added =~= g.scrollback.push(g.row_text(0)));
    assert forall|r: nat, c: nat| r + 1 < g.rows && c < g.cols implies #[trigger] lf.cell(r, c) == g.cell(r + 1, c) by {
        lemma_row_major_order(r, c, (g.rows - 1) as nat, 0, g.cols);
        assert((r + 1) * g.cols == r * g.cols + g.cols) by (nonlinear_arith);
        assert(r * g.cols + c < g.rows * g.cols) by (nonlinear_arith)
            requires
                r < g.rows,
                c < g.cols,
        ;
        assert(((g.rows - 1) as nat) * g.cols == g.rows * g.cols - g.cols) by (nonlinear_arith)
            requires
                g.rows > 0,
        ;
        let k = min_nat(1, g.rows);
        assert(k == 1);
        assert(k * g.cols == g.cols) by (nonlinear_arith)
            requires
                k == 1,
        ;
        assert((g.rows - k) * g.cols == (g.rows - 1) * g.cols) by (nonlinear_arith)
            requires
                k == 1,
        ;
        assert(r * g.cols + c < (g.rows - 1) * g.cols);
        assert((r + 1) * g.cols + c < g.rows * g.cols) by (nonlinear_arith)
            requires
                r + 1 < g.rows,
                c < g.cols,
        ;
        assert(lf.cells[(r * g.cols + c) as int] == g.cells[(r * g.cols + c + g.cols) as int]);
    }
    assert forall|c: nat| c < g.cols implies #[trigger] lf.cell((g.rows - 1) as nat, c) == blank() by {
        assert(((g.rows - 1) as nat) * g.cols == g.rows * g.cols - g.cols) by (nonlinear_arith)
            requires
                g.rows > 0,
        ;
    }
}

} // verus!
