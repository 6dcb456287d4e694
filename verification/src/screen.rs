//! VT100/ANSI terminal screen emulator.
//!
//! Processes a byte stream (PTY output) into a 2D grid of styled cells. The
//! stream is run through the `vte` parser, so real CSI/SGR escape sequences
//! are handled — cursor movement, erase, scroll, and the 16-colour SGR
//! palette the renderer draws with.

use vstd::prelude::*;
use crate::grid::{
    occurrences, occurs_at, join_lines, first_of, flat_params, params_view, sgr, sgr_code,
    draw_cells, blank, capped, content_len, line_of, visible, shown, fill_blank, Cell, Grid, Pen,
    SCROLLBACK_MAX,
};
use crate::text::{trim_end_chars, string_from_chars, str_chars, push_str};
use crate::vt::{new_parser, advance, vt_actions, VtAction, VtParser};
use crate::graphics::{
    InlineImageStore, KittyDecodeState, ImagesView, PendingView, Placement, process_osc,
    iterm_step, fields_view, extract_kitty_apcs, apc_tail, process_kitty_apc, apcs_from,
    tail_from, kitty_step,
};
use crate::width::{char_width, width_of};

verus! {

/// A terminal screen: the cell grid, the cursor, the pen, the scrollback,
/// inline images, and the escape-sequence parser's state.
pub struct Screen {
    pub cols: usize,
    pub rows: usize,
    pub cells: Vec<Cell>,
    pub cursor_row: usize,
    pub cursor_col: usize,
    pub title: String,
    pub alt_screen: bool,
    /// Current "pen" attributes — applied to every character subsequently
    /// written, exactly like a real terminal's SGR state.
    pub pen_fg: u8,
    pub pen_bg: u8,
    pub pen_bold: bool,
    pub pen_italic: bool,
    pub pen_underline: bool,
    /// Deferred-wrap flag: set when a write fills the last column. The next
    /// printable character wraps to the next line before being drawn.
    pub wrap_pending: bool,
    /// Lines scrolled off the top of the grid, newest last, capped at
    /// [`SCROLLBACK_MAX`]. Stored as rendered text (no cell attributes).
    pub scrollback: Vec<String>,
    /// In-band graphics protocol image store (kitty APC, iTerm2 OSC 1337).
    /// Images are placed at the cursor position in effect when the escape
    /// sequence is received.
    pub image_store: InlineImageStore,
    /// Chunked kitty transfers still being assembled.
    pub kitty_state: KittyDecodeState,
    /// The start of a kitty APC whose terminator has not arrived yet; it is
    /// joined to the next `feed` so a sequence split by a PTY read is kept.
    pub apc_pending: Vec<u8>,
    /// Escape-sequence parser state, kept across `feed` calls so that a
    /// sequence split between two reads is still recognised.
    pub parser: VtParser,
}

impl View for Screen {
    type V = Grid;

    open spec fn view(&self) -> Grid {
        Grid {
            cols: self.cols as nat,
            rows: self.rows as nat,
            cells: self.cells@,
            cursor_row: self.cursor_row as nat,
            cursor_col: self.cursor_col as nat,
            pen: Pen {
                fg: self.pen_fg,
                bg: self.pen_bg,
                bold: self.pen_bold,
                italic: self.pen_italic,
                underline: self.pen_underline,
            },
            wrap_pending: self.wrap_pending,
            scrollback: self.scrollback@.map_values(|s: String| s@),
        }
    }
}

/// Row `r`, column `c` of a `cols`-wide grid of `rows` rows lies inside it.
pub proof fn lemma_index_in_grid(r: nat, c: nat, cols: nat, rows: nat)
    requires
        r < rows,
        c < cols,
    ensures
        r * cols + c < rows * cols,
        r * cols + cols <= rows * cols,
        rows * cols == cols * rows,
{
    assert(rows * cols == cols * rows) by (nonlinear_arith);
    assert((r + 1) * cols <= rows * cols) by (nonlinear_arith)
        requires
            r + 1 <= rows,
    ;
    assert((r + 1) * cols == r * cols + cols) by (nonlinear_arith);
}

pub proof fn lemma_row_in_grid(r: nat, cols: nat, rows: nat)
    requires
        r < rows,
    ensures
        r * cols + cols <= rows * cols,
        rows * cols == cols * rows,
{
    assert(rows * cols == cols * rows) by (nonlinear_arith);
    assert((r + 1) * cols <= rows * cols) by (nonlinear_arith)
        requires
            r + 1 <= rows,
    ;
    assert((r + 1) * cols == r * cols + cols) by (nonlinear_arith);
}

proof fn lemma_rows_split(k: nat, cols: nat, rows: nat)
    requires
        k <= rows,
    ensures
        (rows - k) * cols + k * cols == rows * cols,
        k * cols <= rows * cols,
        rows * cols == cols * rows,
{
    assert(rows * cols == cols * rows) by (nonlinear_arith);
    assert((rows - k) * cols + k * cols == rows * cols) by (nonlinear_arith)
        requires
            k <= rows,
    ;
}

/// The image store after one parser action on grid `g`: an OSC string
/// may carry an iTerm2 inline image, placed at `g`'s cursor.
pub open spec fn images_step(g: Grid, st: ImagesView, a: VtAction) -> ImagesView {
    if g.cols == 0 || g.rows == 0 {
        st
    } else {
        match a {
            VtAction::Osc { fields, .. } => iterm_step(
                st,
                fields_view(fields@),
                g.cursor_row as usize,
                g.cursor_col as usize,
            ),
            _ => st,
        }
    }
}

/// The image store after the actions `acts`, applied to grid `g` in order.
pub open spec fn images_after(g: Grid, st: ImagesView, acts: Seq<VtAction>) -> ImagesView
    decreases acts.len(),
{
    if acts.len() == 0 {
        st
    } else {
        images_step(
            g.perform_all(acts.drop_last()),
            images_after(g, st, acts.drop_last()),
            acts.last(),
        )
    }
}

/// The parts of a screen that feeding it a chunk changes: the grid, the
/// image store and the kitty transfers still being assembled.
pub struct FeedView {
    pub grid: Grid,
    pub images: ImagesView,
    pub pending: Map<u32, PendingView>,
}

/// `st` after the parser actions `acts`, applied in order.
pub open spec fn after_actions(st: FeedView, acts: Seq<VtAction>) -> FeedView {
    FeedView {
        grid: st.grid.perform_all(acts),
        images: images_after(st.grid, st.images, acts),
        pending: st.pending,
    }
}

/// `st` after one kitty APC, placed at the grid's cursor.
pub open spec fn after_apc(st: FeedView, apc: (nat, nat, Seq<char>, Seq<u8>)) -> FeedView {
    let k = kitty_step(
        st.pending,
        st.images.images,
        st.images.placements,
        apc.2,
        apc.3,
        st.grid.cursor_row as usize,
        st.grid.cursor_col as usize,
    );
    FeedView {
        grid: st.grid,
        images: ImagesView { images: k.1, placements: k.2, next_id: st.images.next_id },
        pending: k.0,
    }
}

/// How far into a chunk of `n` bytes the parser has read when an APC is
/// handled that ends at `end` of the chunk joined after `skip` held-back
/// bytes, the parser having read `fed` bytes already.
pub open spec fn apc_cut(end: nat, skip: nat, fed: int, n: int) -> int {
    let e = end - skip;
    if e <= fed {
        fed
    } else if e > n {
        n
    } else {
        e
    }
}

/// `st` after the parser, given `hist` so far, reads `data` from `fed` on,
/// with each of the kitty APCs `apcs` handled as soon as the parser has read
/// up to its end, at the cursor reached by then.
pub open spec fn feed_run(
    st: FeedView,
    hist: Seq<u8>,
    data: Seq<u8>,
    fed: int,
    apcs: Seq<(nat, nat, Seq<char>, Seq<u8>)>,
    skip: nat,
) -> FeedView
    decreases apcs.len(),
{
    if apcs.len() == 0 {
        after_actions(st, vt_actions(hist, data.subrange(fed, data.len() as int)))
    } else {
        let cut = apc_cut(apcs[0].1, skip, fed, data.len() as int);
        let seg = data.subrange(fed, cut);
        feed_run(
            after_apc(after_actions(st, vt_actions(hist, seg)), apcs[0]),
            hist + seg,
            data,
            cut,
            apcs.drop_first(),
            skip,
        )
    }
}

/// Applying `x` and then `y` is applying `x + y`.
pub proof fn lemma_after_actions_append(st: FeedView, x: Seq<VtAction>, y: Seq<VtAction>)
    ensures
        after_actions(after_actions(st, x), y) == after_actions(st, x + y),
    decreases y.len(),
{
    if y.len() == 0 {
        assert(x + y =~= x);
    } else {
        lemma_after_actions_append(st, x, y.drop_last());
        assert((x + y).drop_last() =~= x + y.drop_last());
        assert((x + y).last() == y.last());
    }
}

/// Feeding a screen the chunk `a` and then the chunk `b` leaves the grid,
/// the images and the kitty transfers as feeding it `a + b` in one call,
/// where no kitty APC is found: the parser's state carries over from one
/// call to the next, so a sequence split between the chunks is still read.
pub proof fn law_feed_chunks_compose(st: FeedView, h: Seq<u8>, a: Seq<u8>, b: Seq<u8>, skip: nat)
    ensures
        feed_run(
            feed_run(st, h, a, 0, Seq::empty(), skip),
            h + a,
            b,
            0,
            Seq::empty(),
            skip,
        ) == feed_run(st, h, a + b, 0, Seq::empty(), skip),
{
    assert(a.subrange(0, a.len() as int) =~= a);
    assert(b.subrange(0, b.len() as int) =~= b);
    assert((a + b).subrange(0, (a + b).len() as int) =~= a + b);
    crate::vt::lemma_vt_actions_append(h, a, b);
    lemma_after_actions_append(st, vt_actions(h, a), vt_actions(h + a, b));
}

/// Draws into `cells` as [`draw_cells`] describes.
fn draw_into(cells: &mut Vec<Cell>, i: usize, c: usize, cols: usize, ch: char, w: usize, pen: Pen)
    requires
        i < old(cells)@.len(),
        c <= i,
        c < cols,
        c + 1 < cols ==> i + 1 < old(cells)@.len(),
    ensures
        final(cells)@ == draw_cells(old(cells)@, i as int, c as nat, cols as nat, ch, w as nat, pen),
{
    let total = cells.len();
    let ghost c2 = cells@;
    let ghost c3 = if c2[i as int].wide_cont && c > 0 {
        c2.update(i - 1, Cell { ch: '\0', ..c2[i - 1] })
    } else {
        c2
    };
    if cells[i].wide_cont && c > 0 {
        let mut x = cells[i - 1];
        x.ch = '\0';
        cells.set(i - 1, x);
    }
    assert(cells@ == c3);
    if w == 1 && c + 1 < cols && cells[i + 1].wide_cont {
        let mut x = cells[i + 1];
        x.wide_cont = false;
        x.ch = '\0';
        cells.set(i + 1, x);
    }
    let cell = Cell {
        ch,
        fg: pen.fg,
        bg: pen.bg,
        bold: pen.bold,
        italic: pen.italic,
        underline: pen.underline,
        wide_cont: false,
    };
    cells.set(i, cell);
    if w == 2 && c + 1 < cols {
        let mut x = cells[i + 1];
        x.ch = '\0';
        x.wide_cont = true;
        x.bg = pen.bg;
        cells.set(i + 1, x);
    }
}

impl Screen {
    /// The screen keeps its invariant.
    pub open spec fn wf(&self) -> bool {
        self@.wf()
    }

    /// Everything but the grid model stays the same.
    pub open spec fn same_extras(&self, other: &Screen) -> bool {
        &&& self.same_frame(other)
        &&& self.image_store.model() == other.image_store.model()
    }

    /// Title, alternate-screen flag, kitty transfers, pending APC bytes and
    /// parser state are the same.
    pub open spec fn same_frame(&self, other: &Screen) -> bool {
        &&& self.title@ == other.title@
        &&& self.alt_screen == other.alt_screen
        &&& self.parser == other.parser
        &&& self.kitty_state.pending_map() == other.kitty_state.pending_map()
        &&& self.apc_pending@ == other.apc_pending@
    }

    /// A blank `cols`×`rows` screen with the cursor at the top left.
    pub fn new(cols: usize, rows: usize) -> (s: Self)
        requires
            cols * rows <= usize::MAX,
        ensures
            s.wf(),
            s@.cols == cols,
            s@.rows == rows,
            s@.cells == Seq::new((cols * rows) as nat, |i: int| blank()),
            s@.cursor_row == 0,
            s@.cursor_col == 0,
            s@.pen == crate::grid::default_pen(),
            !s@.wrap_pending,
            s@.scrollback == Seq::<Seq<char>>::empty(),
            s.title@ == Seq::<char>::empty(),
            !s.alt_screen,
            s.image_store.image_map() == Map::<u32, Seq<u8>>::empty(),
            s.image_store.placement_seq() == Seq::<Placement>::empty(),
            s.image_store.next_id() == u32::MAX,
            s.kitty_state.pending_map() == Map::<u32, PendingView>::empty(),
            s.apc_pending@ == Seq::<u8>::empty(),
            s.parser.history() == Seq::<u8>::empty(),
    {
        let n = cols * rows;
        let mut cells: Vec<Cell> = Vec::new();
        let mut i: usize = 0;
        while i < n
            invariant
                i <= n,
                cells@ == Seq::new(i as nat, |k: int| blank()),
            decreases n - i,
        {
            cells.push(Cell::default());
            i = i + 1;
        }
        let s = Screen {
            cols,
            rows,
            cells,
            cursor_row: 0,
            cursor_col: 0,
            title: String::new(),
            alt_screen: false,
            pen_fg: 7,
            pen_bg: 0,
            pen_bold: false,
            pen_italic: false,
            pen_underline: false,
            wrap_pending: false,
            scrollback: Vec::new(),
            image_store: InlineImageStore::new(),
            kitty_state: KittyDecodeState::new(),
            apc_pending: Vec::new(),
            parser: new_parser(),
        };
        assert(s@.scrollback =~= Seq::<Seq<char>>::empty());
        s
    }

    /// The cell at `row`, `col`.
    pub fn cell(&self, row: usize, col: usize) -> (c: &Cell)
        requires
            self.wf(),
            row < self.rows,
            col < self.cols,
        ensures
            *c == self@.cell(row as nat, col as nat),
    {
        proof {
            lemma_index_in_grid(row as nat, col as nat, self.cols as nat, self.rows as nat);
            assert(row * self.cols + col >= row * self.cols) by (nonlinear_arith);
        }
        let total = self.cells.len();
        &self.cells[row * self.cols + col]
    }

    /// Appends what row `r` shows, up to its last non-blank cell, to `out`.
    fn push_line(&self, r: usize, out: &mut Vec<char>)
        requires
            self@.cells.len() == self@.cols * self@.rows,
            r < self.rows,
        ensures
            final(out)@ == old(out)@ + line_of(self@.row(r as nat)),
    {
        let ghost g = self@;
        let total = self.cells.len();
        proof {
            lemma_row_in_grid(r as nat, self.cols as nat, self.rows as nat);
        }
        let base = r * self.cols;
        let ghost row = g.row(r as nat);
        assert(row.len() == self.cols);
        assert(row.take(self.cols as int) == row);
        let mut end = self.cols;
        while end > 0 && self.cells[base + end - 1].ch == '\0'
            invariant
                end <= self.cols,
                base + self.cols <= self.cells@.len(),
                total == self.cells@.len(),
                row == self.cells@.subrange(base as int, base + self.cols),
                content_len(row) == content_len(row.take(end as int)),
            decreases end,
        {
            assert(row.take(end as int).drop_last() == row.take(end - 1));
            end = end - 1;
        }
        assert(content_len(row.take(end as int)) == end) by {
            if end > 0 {
                assert(row.take(end as int).last() == row[end - 1]);
            }
        }
        let ghost start = out@;
        let mut col: usize = 0;
        assert(row.take(0) == Seq::<Cell>::empty());
        while col < end
            invariant
                col <= end <= self.cols,
                base + self.cols <= self.cells@.len(),
                total == self.cells@.len(),
                row == self.cells@.subrange(base as int, base + self.cols),
                out@ == start + visible(row.take(col as int)),
            decreases end - col,
        {
            let cell = self.cells[base + col];
            assert(row.take(col + 1).drop_last() == row.take(col as int));
            assert(row.take(col + 1).last() == cell);
            if !cell.wide_cont {
                out.push(if cell.ch == '\0' { ' ' } else { cell.ch });
            }
            col = col + 1;
        }
        assert(content_len(row) == end);
    }

    /// Row `r` as text: trailing blanks trimmed, continuation cells skipped.
    fn row_chars(&self, r: usize) -> (v: Vec<char>)
        requires
            self@.cells.len() == self@.cols * self@.rows,
            r < self.rows,
        ensures
            v@ == self@.row_text(r as nat),
    {
        let mut v: Vec<char> = Vec::new();
        self.push_line(r, &mut v);
        assert(v@ =~= line_of(self@.row(r as nat)));
        trim_end_chars(&mut v);
        v
    }

    /// Row `r` as text: trailing blanks trimmed, continuation cells skipped.
    fn row_text(&self, r: usize) -> (s: String)
        requires
            self@.cells.len() == self@.cols * self@.rows,
            r < self.rows,
        ensures
            s@ == self@.row_text(r as nat),
    {
        let v = self.row_chars(r);
        string_from_chars(v.as_slice())
    }

    /// Appends the texts of rows `from..to` to the scrollback, then drops the
    /// oldest lines beyond [`SCROLLBACK_MAX`].
    fn push_rows_to_scrollback(&mut self, from: usize, to: usize)
        requires
            old(self).wf(),
            from <= to <= old(self).rows,
        ensures
            final(self)@ == old(self)@.with_scrollback(
                capped(
                    old(self)@.scrollback + Seq::new(
                        (to - from) as nat,
                        |i: int| old(self)@.row_text((from + i) as nat),
                    ),
                ),
            ),
            final(self).same_extras(old(self)),
    {
        let ghost g = self@;
        let ghost lines = Seq::new((to - from) as nat, |i: int| g.row_text((from + i) as nat));
        let mut r = from;
        while r < to
            invariant
                from <= r <= to <= self.rows,
                lines == Seq::new((to - from) as nat, |i: int| g.row_text((from + i) as nat)),
                self@ == g.with_scrollback(g.scrollback + lines.take(r - from)),
                g.wf(),
                self.same_extras(old(self)),
            decreases to - r,
        {
            let line = self.row_text(r);
            assert(line@ == g.row_text(r as nat));
            assert(lines[r - from] == g.row_text(r as nat));
            let ghost before = self.scrollback@;
            self.scrollback.push(line);
            assert(self.scrollback@.map_values(|s: String| s@) =~= before.map_values(
                |s: String| s@,
            ).push(line@));
            assert(lines.take(r + 1 - from) =~= lines.take(r - from).push(line@));
            r = r + 1;
        }
        assert(lines.take(to - from) == lines);
        let len = self.scrollback.len();
        if len > SCROLLBACK_MAX {
            let ghost before = self.scrollback@;
            let kept = self.scrollback.split_off(len - SCROLLBACK_MAX);
            self.scrollback = kept;
            assert(self.scrollback@.map_values(|s: String| s@) =~= before.map_values(
                |s: String| s@,
            ).skip(len - SCROLLBACK_MAX));
        }
    }

    /// Change the grid to `cols`×`rows`: cells in the overlap are kept, rows
    /// cut off at the bottom go to the scrollback so nothing is silently lost,
    /// and the cursor is clamped into the new grid.
    pub fn resize(&mut self, cols: usize, rows: usize)
        requires
            old(self).wf(),
            cols * rows <= usize::MAX,
        ensures
            final(self)@ == old(self)@.resized(cols as nat, rows as nat),
            final(self).wf(),
            final(self).same_extras(old(self)),
    {
        let ghost g = self@;
        let total = self.cells.len();
        let n = cols * rows;
        let mut cells: Vec<Cell> = Vec::new();
        let mut i: usize = 0;
        let mut r: usize = 0;
        let mut c: usize = 0;
        while i < n
            invariant
                n == cols * rows,
                i <= n,
                i == r * cols + c,
                cols > 0 ==> c < cols,
                cols == 0 ==> i == 0,
                self@ == g,
                g.wf(),
                total == self.cells@.len(),
                cells@ == Seq::new(i as nat, |k: int| g.resize_cell(cols as nat, k)),
            decreases n - i,
        {
            proof {
                vstd::arithmetic::div_mod::lemma_fundamental_div_mod_converse(
                    i as int,
                    cols as int,
                    r as int,
                    c as int,
                );
            }
            let cell = if r < self.rows && c < self.cols {
                proof {
                    lemma_index_in_grid(r as nat, c as nat, self.cols as nat, self.rows as nat);
                }
                self.cells[r * self.cols + c]
            } else {
                Cell::default()
            };
            cells.push(cell);
            proof {
                assert(r * cols + c + 1 <= n);
                if c + 1 == cols {
                    assert((r + 1) * cols == r * cols + cols) by (nonlinear_arith);
                }
            }
            i = i + 1;
            if c + 1 == cols {
                c = 0;
                r = r + 1;
            } else {
                c = c + 1;
            }
        }
        if rows < self.rows {
            self.push_rows_to_scrollback(rows, self.rows);
        }
        self.cells = cells;
        self.cols = cols;
        self.rows = rows;
        let last_row = if rows == 0 {
            0
        } else {
            rows - 1
        };
        let last_col = if cols == 0 {
            0
        } else {
            cols - 1
        };
        if self.cursor_row > last_row {
            self.cursor_row = last_row;
        }
        if self.cursor_col > last_col {
            self.cursor_col = last_col;
        }
        assert(self@.scrollback == g.resized(cols as nat, rows as nat).scrollback);
        assert(self@.cells == g.resized(cols as nat, rows as nat).cells);
    }

    /// Plain-text view of the grid: each row up to its last non-blank cell
    /// (continuation cells skipped, blanks shown as spaces), rows joined with
    /// newlines, trailing white space of the whole text trimmed.
    pub fn text(&self) -> (s: String)
        requires
            self.wf(),
        ensures
            s@ == self@.text(),
    {
        let ghost g = self@;
        let mut out: Vec<char> = Vec::new();
        let mut r: usize = 0;
        while r < self.rows
            invariant
                r <= self.rows,
                self.wf(),
                out@ == g.lines_upto(r as nat),
                g == self@,
            decreases self.rows - r,
        {
            self.push_line(r, &mut out);
            out.push('\n');
            r = r + 1;
        }
        trim_end_chars(&mut out);
        string_from_chars(out.as_slice())
    }

    /// `true` when any cell on the grid holds a non-blank character.
    pub fn has_output(&self) -> (r: bool)
        requires
            self.wf(),
        ensures
            r == self@.has_output(),
    {
        let mut i: usize = 0;
        while i < self.cells.len()
            invariant
                i <= self.cells@.len(),
                forall|k: int| 0 <= k < i ==> self.cells@[k].ch == '\0',
            decreases self.cells.len() - i,
        {
            if self.cells[i].ch != '\0' {
                assert(self@.cells[i as int].ch != '\0');
                return true;
            }
            i = i + 1;
        }
        false
    }

    /// Every `(row, character offset)` at which `pattern` occurs in a row's
    /// text, row by row and left to right; the offset counts characters of
    /// the row's text, not grid columns. An empty pattern matches nothing.
    pub fn find_text(&self, pattern: &str) -> (hits: Vec<(usize, usize)>)
        requires
            self.wf(),
        ensures
            pattern@.len() == 0 ==> hits@ == Seq::<(usize, usize)>::empty(),
            pattern@.len() > 0 ==> hits@ == self@.find_hits(pattern@, self@.rows),
    {
        let pat = str_chars(pattern);
        let mut hits: Vec<(usize, usize)> = Vec::new();
        if pat.len() == 0 {
            return hits;
        }
        let ghost g = self@;
        let mut r: usize = 0;
        while r < self.rows
            invariant
                r <= self.rows,
                self.wf(),
                g == self@,
                pat@ == pattern@,
                pat@.len() > 0,
                hits@ == g.find_hits(pattern@, r as nat),
            decreases self.rows - r,
        {
            let line = self.row_chars(r);
            let ghost before = hits@;
            let ghost lv = line@;
            let mut i: usize = 0;
            while i < line.len()
                invariant
                    i <= line@.len(),
                    lv == line@,
                    hits@ == before + occurrences(lv, pat@, i as nat).map_values(
                        |p: nat| (r, p as usize),
                    ),
                decreases line.len() - i,
            {
                let ghost prev = hits@;
                if crate::text::occurs_at(line.as_slice(), pat.as_slice(), i) {
                    proof {
                        lemma_occurs_iff_prefix(lv, pat@, i as int);
                    }
                    hits.push((r, i));
                    assert(occurrences(lv, pat@, (i + 1) as nat).map_values(|p: nat| (r, p as usize))
                        =~= occurrences(lv, pat@, i as nat).map_values(|p: nat| (r, p as usize)).push(
                        (r, i),
                    ));
                    assert(hits@ =~= before + occurrences(lv, pat@, (i + 1) as nat).map_values(
                        |p: nat| (r, p as usize),
                    ));
                } else {
                    proof {
                        lemma_occurs_iff_prefix(lv, pat@, i as int);
                    }
                }
                i = i + 1;
            }
            r = r + 1;
        }
        hits
    }

    /// All lines scrolled off the top, joined with newlines (oldest first).
    pub fn scrollback_text(&self) -> (s: String)
        requires
            self.wf(),
        ensures
            s@ == self@.scrollback_text(),
    {
        let ghost lines = self@.scrollback;
        let mut out = String::new();
        let mut i: usize = 0;
        while i < self.scrollback.len()
            invariant
                i <= self.scrollback@.len(),
                lines == self.scrollback@.map_values(|s: String| s@),
                out@ == join_lines(lines.take(i as int)),
            decreases self.scrollback.len() - i,
        {
            assert(lines.take(i + 1).drop_last() == lines.take(i as int));
            if i > 0 {
                out.push('\n');
            } else {
                assert(lines.take(1)[0] == lines[0]);
            }
            push_str(&mut out, self.scrollback[i].as_str());
            i = i + 1;
        }
        assert(lines.take(lines.len() as int) == lines);
        out
    }

    /// Scrollback followed by the current screen, joined with a newline.
    pub fn scrollback_with_screen(&self) -> (s: String)
        requires
            self.wf(),
        ensures
            s@ == self@.scrollback_with_screen(),
    {
        let mut sb = self.scrollback_text();
        let screen = self.text();
        if sb.as_str().is_empty() {
            screen
        } else if screen.as_str().is_empty() {
            sb
        } else {
            sb.push('\n');
            push_str(&mut sb, screen.as_str());
            sb
        }
    }

    /// SU: shift the grid up by `n` rows, keeping the rows that leave the top
    /// in the scrollback.
    fn scroll_up(&mut self, n: usize)
        requires
            old(self).wf(),
        ensures
            final(self)@ == old(self)@.scroll_up(n as nat),
            final(self).wf(),
            final(self).same_extras(old(self)),
    {
        if self.rows == 0 || self.cols == 0 {
            return;
        }
        let ghost g = self@;
        let k = if n < self.rows {
            n
        } else {
            self.rows
        };
        self.push_rows_to_scrollback(0, k);
        assert(Seq::new((k - 0) as nat, |i: int| g.row_text((0 + i) as nat)) =~= Seq::new(
            k as nat,
            |i: int| g.row_text(i as nat),
        ));
        let ghost gs = self@;
        let total = self.cells.len();
        proof {
            lemma_rows_split(k as nat, self.cols as nat, self.rows as nat);
        }
        let shift = k * self.cols;
        let keep = (self.rows - k) * self.cols;
        let mut i: usize = 0;
        while i < keep
            invariant
                i <= keep,
                keep + shift == total,
                total == self.cells@.len(),
                g.cells.len() == total,
                forall|j: int| 0 <= j < i ==> self.cells@[j] == #[trigger] g.cells[j + shift],
                forall|j: int| i <= j < total ==> self.cells@[j] == #[trigger] g.cells[j],
                self@ == gs.with_cells(self@.cells),
                self.same_extras(old(self)),
            decreases keep - i,
        {
            let c = self.cells[i + shift];
            self.cells.set(i, c);
            i = i + 1;
        }
        while i < total
            invariant
                keep <= i <= total,
                keep + shift == total,
                total == self.cells@.len(),
                g.cells.len() == total,
                forall|j: int| 0 <= j < keep ==> self.cells@[j] == #[trigger] g.cells[j + shift],
                forall|j: int| keep <= j < i ==> self.cells@[j] == blank(),
                self@ == gs.with_cells(self@.cells),
                self.same_extras(old(self)),
            decreases total - i,
        {
            self.cells.set(i, Cell::default());
            i = i + 1;
        }
        assert(self.cells@ =~= g.scroll_up(n as nat).cells);
    }

    /// Move to the start of the next line, scrolling at the bottom.
    fn line_wrap(&mut self)
        requires
            old(self).wf(),
        ensures
            final(self)@ == old(self)@.line_wrap(),
            final(self).wf(),
            final(self).same_extras(old(self)),
    {
        self.cursor_col = 0;
        if self.cursor_row + 1 >= self.rows {
            self.scroll_up(1);
        } else {
            self.cursor_row = self.cursor_row + 1;
        }
    }

    /// LF / VT / FF: cancel a pending wrap and move to the next line.
    fn newline(&mut self)
        requires
            old(self).wf(),
        ensures
            final(self)@ == old(self)@.newline(),
            final(self).wf(),
            final(self).same_extras(old(self)),
    {
        self.wrap_pending = false;
        self.line_wrap();
    }

    /// Blank the cells with index in `lo..hi`.
    fn blank_range(&mut self, lo: usize, hi: usize)
        requires
            old(self).wf(),
            lo <= hi <= old(self).cells@.len(),
        ensures
            final(self)@ == old(self)@.with_cells(fill_blank(old(self)@.cells, lo as int, hi as int)),
            final(self).wf(),
            final(self).same_extras(old(self)),
    {
        let ghost g = self@;
        let mut i = lo;
        while i < hi
            invariant
                lo <= i <= hi <= self.cells@.len(),
                self@ == g.with_cells(self@.cells),
                self.cells@.len() == g.cells.len(),
                forall|j: int| 0 <= j < g.cells.len() ==> #[trigger] self.cells@[j] == (if lo <= j < i {
                    blank()
                } else {
                    g.cells[j]
                }),
                self.same_extras(old(self)),
            decreases hi - i,
        {
            self.cells.set(i, Cell::default());
            i = i + 1;
        }
        assert(self.cells@ =~= fill_blank(g.cells, lo as int, hi as int));
    }

    /// Write `ch` at the cursor with the current pen, wrapping first when a
    /// previous write filled the line or the character does not fit.
    fn put(&mut self, ch: char)
        requires
            old(self).wf(),
        ensures
            final(self)@ == old(self)@.put(ch, width_of(ch)),
            final(self).wf(),
            final(self).same_extras(old(self)),
    {
        if self.cols == 0 || self.rows == 0 {
            return;
        }
        let w = char_width(ch) as usize;
        if w == 0 {
            return;
        }
        if self.wrap_pending {
            self.line_wrap();
            self.wrap_pending = false;
        }
        if w > self.cols - self.cursor_col {
            self.line_wrap();
        }
        self.draw(ch, w);
    }

    /// Draw `ch`, `w` columns wide, at the cursor (see [`Grid::draw`]).
    fn draw(&mut self, ch: char, w: usize)
        requires
            old(self).wf(),
            old(self).cols > 0,
            old(self).rows > 0,
            1 <= w <= 3,
        ensures
            final(self)@ == old(self)@.draw(ch, w as nat),
            final(self).wf(),
            final(self).same_extras(old(self)),
    {
        let ghost g = self@;
        let row = self.cursor_row;
        let col = self.cursor_col;
        let total = self.cells.len();
        proof {
            lemma_index_in_grid(row as nat, col as nat, self.cols as nat, self.rows as nat);
            assert(row * self.cols + col >= col) by (nonlinear_arith);
        }
        let i = row * self.cols + col;
        let pen = Pen {
            fg: self.pen_fg,
            bg: self.pen_bg,
            bold: self.pen_bold,
            italic: self.pen_italic,
            underline: self.pen_underline,
        };
        draw_into(&mut self.cells, i, col, self.cols, ch, w, pen);
        if w >= self.cols - col {
            self.cursor_col = self.cols - 1;
            self.wrap_pending = true;
        } else {
            self.cursor_col = col + w;
        }
    }

    /// A C0 control byte: LF/VT/FF, CR, BS and TAB; others are ignored.
    fn execute(&mut self, b: u8)
        requires
            old(self).wf(),
        ensures
            final(self)@ == old(self)@.execute(b),
            final(self).wf(),
            final(self).same_extras(old(self)),
    {
        if b == 10 || b == 11 || b == 12 {
            self.newline();
        } else if b == 13 {
            self.cursor_col = 0;
            self.wrap_pending = false;
        } else if b == 8 {
            if self.cursor_col > 0 {
                self.cursor_col = self.cursor_col - 1;
            }
            self.wrap_pending = false;
        } else if b == 9 {
            let lim = if self.cols == 0 {
                0
            } else {
                self.cols - 1
            };
            let rem = 8 - self.cursor_col % 8;
            if rem >= lim - self.cursor_col {
                self.cursor_col = lim;
            } else {
                self.cursor_col = self.cursor_col + rem;
            }
            self.wrap_pending = false;
        }
    }

    /// ED — erase in display.
    fn erase_display(&mut self, mode: u16)
        requires
            old(self).wf(),
            old(self).cols > 0,
            old(self).rows > 0,
        ensures
            final(self)@ == old(self)@.erase_display(mode),
            final(self).wf(),
            final(self).same_extras(old(self)),
    {
        let total = self.cells.len();
        proof {
            lemma_index_in_grid(
                self.cursor_row as nat,
                self.cursor_col as nat,
                self.cols as nat,
                self.rows as nat,
            );
        }
        let here = self.cursor_row * self.cols + self.cursor_col;
        if mode == 0 {
            self.blank_range(here, total);
        } else if mode == 1 {
            self.blank_range(0, here + 1);
        } else {
            self.blank_range(0, total);
        }
    }

    /// EL — erase in line.
    fn erase_line(&mut self, mode: u16)
        requires
            old(self).wf(),
            old(self).cols > 0,
            old(self).rows > 0,
        ensures
            final(self)@ == old(self)@.erase_line(mode),
            final(self).wf(),
            final(self).same_extras(old(self)),
    {
        let total = self.cells.len();
        proof {
            lemma_index_in_grid(
                self.cursor_row as nat,
                self.cursor_col as nat,
                self.cols as nat,
                self.rows as nat,
            );
        }
        let start = self.cursor_row * self.cols;
        let here = start + self.cursor_col;
        if mode == 0 {
            self.blank_range(here, start + self.cols);
        } else if mode == 1 {
            self.blank_range(start, here + 1);
        } else if mode == 2 {
            self.blank_range(start, start + self.cols);
        }
    }

    /// Place the cursor and cancel a pending wrap.
    fn move_cursor(&mut self, r: usize, c: usize)
        requires
            old(self).wf(),
            (if old(self).rows == 0 { r == 0 } else { r < old(self).rows }),
            (if old(self).cols == 0 { c == 0 } else { c < old(self).cols }),
        ensures
            final(self)@ == old(self)@.with_cursor(r as nat, c as nat),
            final(self).wf(),
            final(self).same_extras(old(self)),
    {
        self.cursor_row = r;
        self.cursor_col = c;
        self.wrap_pending = false;
    }

    /// A CSI sequence: cursor movement, erase, scroll and SGR; other final
    /// bytes are ignored.
    fn csi_dispatch(&mut self, params: &Vec<Vec<u16>>, action: char)
        requires
            old(self).wf(),
            old(self).cols > 0,
            old(self).rows > 0,
        ensures
            final(self)@ == old(self)@.csi(params_view(params@), action),
            final(self).wf(),
            final(self).same_extras(old(self)),
    {
        let ghost pv = params_view(params@);
        let p0 = first_param(params, 0);
        let p1 = first_param(params, 1);
        let n0: u16 = match p0 {
            Some(v) => v,
            None => 1,
        };
        let n1: u16 = match p1 {
            Some(v) => v,
            None => 1,
        };
        let n = n0 as usize;
        let row: usize = if n0 == 0 {
            0
        } else {
            (n0 - 1) as usize
        };
        let col: usize = if n1 == 0 {
            0
        } else {
            (n1 - 1) as usize
        };
        let last_row = self.rows - 1;
        let last_col = self.cols - 1;
        let cr = self.cursor_row;
        let cc = self.cursor_col;
        if action == 'A' {
            let r = if n >= cr {
                0
            } else {
                cr - n
            };
            self.move_cursor(r, cc);
        } else if action == 'B' {
            let r = if n >= last_row - cr {
                last_row
            } else {
                cr + n
            };
            self.move_cursor(r, cc);
        } else if action == 'C' {
            let c = if n >= last_col - cc {
                last_col
            } else {
                cc + n
            };
            self.move_cursor(cr, c);
        } else if action == 'D' {
            let c = if n >= cc {
                0
            } else {
                cc - n
            };
            self.move_cursor(cr, c);
        } else if action == 'G' {
            let c = if row <= last_col {
                row
            } else {
                last_col
            };
            self.move_cursor(cr, c);
        } else if action == 'd' {
            let r = if row <= last_row {
                row
            } else {
                last_row
            };
            self.move_cursor(r, cc);
        } else if action == 'H' || action == 'f' {
            let r = if row <= last_row {
                row
            } else {
                last_row
            };
            let c = if col <= last_col {
                col
            } else {
                last_col
            };
            self.move_cursor(r, c);
        } else if action == 'J' {
            let mode: u16 = match p0 {
                Some(v) => v,
                None => 0,
            };
            self.erase_display(mode);
        } else if action == 'K' {
            let mode: u16 = match p0 {
                Some(v) => v,
                None => 0,
            };
            self.erase_line(mode);
        } else if action == 'S' {
            self.scroll_up(n);
        } else if action == 'm' {
            self.apply_sgr(params);
        }
    }

    /// SGR — set the pen from the parameters.
    fn apply_sgr(&mut self, params: &Vec<Vec<u16>>)
        requires
            old(self).wf(),
        ensures
            final(self)@ == (Grid {
                pen: sgr(old(self)@.pen, flat_params(params_view(params@)), 0),
                ..old(self)@
            }),
            final(self).wf(),
            final(self).same_extras(old(self)),
    {
        let flat = flatten_params(params);
        let mut pen = Pen {
            fg: self.pen_fg,
            bg: self.pen_bg,
            bold: self.pen_bold,
            italic: self.pen_italic,
            underline: self.pen_underline,
        };
        let ghost start = pen;
        let len = flat.len();
        let mut idx: usize = 0;
        while idx < len
            invariant
                idx <= len,
                len == flat@.len(),
                sgr(start, flat@, 0) == sgr(pen, flat@, idx as nat),
            decreases len - idx,
        {
            let v = flat[idx];
            let ghost p0 = pen;
            let ghost i0 = idx as int;
            assert(sgr(p0, flat@, i0 as nat) == (if v == 38 || v == 48 {
                if i0 + 1 >= flat@.len() {
                    p0
                } else if flat@[i0 + 1] == 5 {
                    sgr(
                        if i0 + 2 < flat@.len() && flat@[i0 + 2] < 16 {
                            if v == 38 {
                                Pen { fg: flat@[i0 + 2] as u8, ..p0 }
                            } else {
                                Pen { bg: flat@[i0 + 2] as u8, ..p0 }
                            }
                        } else {
                            p0
                        },
                        flat@,
                        (i0 + 3) as nat,
                    )
                } else if flat@[i0 + 1] == 2 {
                    sgr(p0, flat@, (i0 + 5) as nat)
                } else {
                    sgr(p0, flat@, (i0 + 2) as nat)
                }
            } else {
                sgr(sgr_code(p0, v), flat@, (i0 + 1) as nat)
            }));
            if v == 38 || v == 48 {
                let j = idx + 1;
                if j >= len {
                    idx = len;
                } else if flat[j] == 5 {
                    let k = j + 1;
                    if k < len && flat[k] < 16 {
                        if v == 38 {
                            pen.fg = flat[k] as u8;
                        } else {
                            pen.bg = flat[k] as u8;
                        }
                    }
                    idx = if len - k <= 1 {
                        len
                    } else {
                        k + 1
                    };
                    assert(sgr(pen, flat@, (k + 1) as nat) == sgr(pen, flat@, idx as nat));
                } else if flat[j] == 2 {
                    idx = if len - j <= 4 {
                        len
                    } else {
                        j + 4
                    };
                    assert(sgr(pen, flat@, (j + 4) as nat) == sgr(pen, flat@, idx as nat));
                } else {
                    idx = j + 1;
                }
            } else {
                pen = sgr_code_exec(pen, v);
                idx = idx + 1;
            }
        }
        self.pen_fg = pen.fg;
        self.pen_bg = pen.bg;
        self.pen_bold = pen.bold;
        self.pen_italic = pen.italic;
        self.pen_underline = pen.underline;
    }

    /// The grid, the image store and the kitty transfers in progress.
    pub open spec fn feed_view(&self) -> FeedView {
        FeedView {
            grid: self@,
            images: self.image_store.model(),
            pending: self.kitty_state.pending_map(),
        }
    }

    /// Feed a raw PTY byte stream. The bytes run through the `vte` parser,
    /// which keeps partial sequences across calls, and its actions are
    /// applied in order. Kitty APC graphics are found in the chunk joined to
    /// an APC left unfinished by the previous call; each is handled once the
    /// parser has read up to its end, so its image is placed at the cursor in
    /// effect when the sequence arrives. A screen with no rows or no columns
    /// ignores the input.
    pub fn feed(&mut self, data: &[u8])
        requires
            old(self).wf(),
        ensures
            final(self).wf(),
            final(self).title@ == old(self).title@,
            final(self).alt_screen == old(self).alt_screen,
            (old(self).cols == 0 || old(self).rows == 0) ==> {
                &&& final(self)@ == old(self)@
                &&& final(self).same_extras(old(self))
            },
            (old(self).cols > 0 && old(self).rows > 0) ==> ({
                let buf = old(self).apc_pending@ + data@;
                let r = feed_run(
                    old(self).feed_view(),
                    old(self).parser.history(),
                    data@,
                    0,
                    apcs_from(buf, 0),
                    old(self).apc_pending@.len(),
                );
                &&& final(self).feed_view() == r
                &&& final(self).apc_pending@ == tail_from(buf, 0)
                &&& final(self).parser.history() == old(self).parser.history() + data@
            }),
    {
        if self.cols == 0 || self.rows == 0 {
            return;
        }
        let ghost h0 = self.parser.history();
        let ghost goal = feed_run(
            self.feed_view(),
            h0,
            data@,
            0,
            apcs_from(self.apc_pending@ + data@, 0),
            self.apc_pending@.len(),
        );
        let skip = self.apc_pending.len();
        let mut buf = vstd::slice::slice_to_vec(self.apc_pending.as_slice());
        let mut i: usize = 0;
        while i < data.len()
            invariant
                i <= data@.len(),
                buf@ == old(self).apc_pending@ + data@.take(i as int),
            decreases data.len() - i,
        {
            buf.push(data[i]);
            i = i + 1;
            assert(buf@ =~= old(self).apc_pending@ + data@.take(i as int));
        }
        assert(data@.take(data@.len() as int) == data@);
        let apcs = extract_kitty_apcs(buf.as_slice());
        let ghost av = apcs@.map_values(|t: (usize, usize, String, Vec<u8>)| crate::graphics::apc_view(t));
        assert(av == apcs_from(buf@, 0));
        assert(data@.take(0) =~= Seq::<u8>::empty());
        assert(h0 + data@.take(0) =~= h0);
        assert(av.skip(0) =~= av);
        let mut fed: usize = 0;
        let mut j: usize = 0;
        while j < apcs.len()
            invariant
                j <= apcs@.len(),
                fed <= data@.len(),
                skip == old(self).apc_pending@.len(),
                av == apcs@.map_values(|t: (usize, usize, String, Vec<u8>)| crate::graphics::apc_view(t)),
                self.wf(),
                self.title@ == old(self).title@,
                self.alt_screen == old(self).alt_screen,
                self.apc_pending@ == old(self).apc_pending@,
                self.parser.history() == h0 + data@.take(fed as int),
                goal == feed_run(self.feed_view(), self.parser.history(), data@, fed as int, av.skip(j as int), skip as nat),
            decreases apcs.len() - j,
        {
            let end = apcs[j].1;
            let cut: usize = if end <= skip || end - skip <= fed {
                fed
            } else if end - skip > data.len() {
                data.len()
            } else {
                end - skip
            };
            assert(cut as int == apc_cut(av[j as int].1, skip as nat, fed as int, data@.len() as int));
            assert(av.skip(j as int)[0] == av[j as int]);
            assert(av.skip(j as int).drop_first() =~= av.skip(j + 1));
            let seg = vstd::slice::slice_subrange(data, fed, cut);
            assert(seg@ =~= data@.subrange(fed as int, cut as int));
            let acts = advance(&mut self.parser, seg);
            self.perform_all(&acts);
            process_kitty_apc(
                &mut self.kitty_state,
                apcs[j].2.as_str(),
                apcs[j].3.as_slice(),
                self.cursor_row,
                self.cursor_col,
                &mut self.image_store,
            );
            assert(h0 + data@.take(cut as int) =~= h0 + data@.take(fed as int) + data@.subrange(fed as int, cut as int));
            fed = cut;
            j = j + 1;
        }
        assert(av.skip(j as int) =~= Seq::<(nat, nat, Seq<char>, Seq<u8>)>::empty());
        let seg = vstd::slice::slice_subrange(data, fed, data.len());
        assert(seg@ =~= data@.subrange(fed as int, data@.len() as int));
        let acts = advance(&mut self.parser, seg);
        self.perform_all(&acts);
        assert(h0 + data@ =~= h0 + data@.take(fed as int) + data@.subrange(fed as int, data@.len() as int));
        self.apc_pending = apc_tail(buf.as_slice());
    }

    /// Apply one parser action (see [`Grid::perform`] and [`images_step`]).
    pub fn perform(&mut self, action: &VtAction)
        requires
            old(self).wf(),
        ensures
            final(self)@ == old(self)@.perform(*action),
            final(self).image_store.model() == images_step(
                old(self)@,
                old(self).image_store.model(),
                *action,
            ),
            final(self).wf(),
            final(self).same_frame(old(self)),
    {
        if self.cols == 0 || self.rows == 0 {
            return;
        }
        match action {
            VtAction::Print(c) => self.put(*c),
            VtAction::Execute(b) => self.execute(*b),
            VtAction::Csi { params, action, .. } => self.csi_dispatch(params, *action),
            VtAction::Osc { fields, .. } => {
                process_osc(fields, self.cursor_row, self.cursor_col, &mut self.image_store);
            },
        }
    }

    /// Apply parser actions in order (see [`Grid::perform_all`]).
    pub fn perform_all(&mut self, actions: &Vec<VtAction>)
        requires
            old(self).wf(),
        ensures
            final(self)@ == old(self)@.perform_all(actions@),
            final(self).image_store.model() == images_after(
                old(self)@,
                old(self).image_store.model(),
                actions@,
            ),
            final(self).wf(),
            final(self).same_frame(old(self)),
    {
        let ghost g = self@;
        let ghost st = self.image_store.model();
        let mut i: usize = 0;
        while i < actions.len()
            invariant
                i <= actions@.len(),
                self.wf(),
                self@ == g.perform_all(actions@.take(i as int)),
                self.image_store.model() == images_after(g, st, actions@.take(i as int)),
                self.same_frame(old(self)),
            decreases actions.len() - i,
        {
            assert(actions@.take(i + 1).drop_last() == actions@.take(i as int));
            self.perform(&actions[i]);
            i = i + 1;
        }
        assert(actions@.take(actions@.len() as int) == actions@);
    }
}

/// `pat` occurs in `s` at `i` exactly when the rest of `s` from `i` starts
/// with `pat`.
proof fn lemma_occurs_iff_prefix(s: Seq<char>, pat: Seq<char>, i: int)
    requires
        0 <= i <= s.len(),
    ensures
        occurs_at(s, pat, i) <==> crate::text::has_prefix(s.skip(i), pat),
{
    if pat.len() <= s.len() - i {
        assert(s.skip(i).take(pat.len() as int) =~= s.subrange(i, i + pat.len()));
    }
}

/// The first value of parameter `k`, if present.
fn first_param(params: &Vec<Vec<u16>>, k: usize) -> (r: Option<u16>)
    ensures
        r == first_of(params_view(params@), k as int),
{
    if k < params.len() && params[k].len() > 0 {
        Some(params[k][0])
    } else {
        None
    }
}

/// All parameters and sub-parameters, in order.
fn flatten_params(params: &Vec<Vec<u16>>) -> (flat: Vec<u16>)
    ensures
        flat@ == flat_params(params_view(params@)),
{
    let ghost pv = params_view(params@);
    let mut flat: Vec<u16> = Vec::new();
    let mut i: usize = 0;
    while i < params.len()
        invariant
            i <= params@.len(),
            pv == params_view(params@),
            flat@ == flat_params(pv.take(i as int)),
        decreases params.len() - i,
    {
        let p = &params[i];
        let mut j: usize = 0;
        while j < p.len()
            invariant
                j <= p@.len(),
                i < params@.len(),
                p == params@[i as int],
                flat@ == flat_params(pv.take(i as int)) + p@.take(j as int),
            decreases p.len() - j,
        {
            flat.push(p[j]);
            j = j + 1;
            assert(p@.take(j as int) == p@.take(j - 1).push(p@[j - 1]));
        }
        assert(pv.take(i + 1).drop_last() == pv.take(i as int));
        assert(pv.take(i + 1).last() == p@);
        assert(p@.take(p@.len() as int) == p@);
        i = i + 1;
    }
    assert(pv.take(params@.len() as int) == pv);
    flat
}

/// One plain SGR code (see [`sgr_code`]).
fn sgr_code_exec(pen: Pen, v: u16) -> (r: Pen)
    ensures
        r == sgr_code(pen, v),
{
    if v == 0 {
        Pen { fg: 7, bg: 0, bold: false, italic: false, underline: false }
    } else if v == 1 {
        Pen { bold: true, ..pen }
    } else if v == 3 {
        Pen { italic: true, ..pen }
    } else if v == 4 {
        Pen { underline: true, ..pen }
    } else if v == 22 {
        Pen { bold: false, ..pen }
    } else if v == 23 {
        Pen { italic: false, ..pen }
    } else if v == 24 {
        Pen { underline: false, ..pen }
    } else if 30 <= v && v <= 37 {
        Pen { fg: (v - 30) as u8, ..pen }
    } else if 40 <= v && v <= 47 {
        Pen { bg: (v - 40) as u8, ..pen }
    } else if 90 <= v && v <= 97 {
        Pen { fg: (v - 90 + 8) as u8, ..pen }
    } else if 100 <= v && v <= 107 {
        Pen { bg: (v - 100 + 8) as u8, ..pen }
    } else if v == 39 {
        Pen { fg: 7, ..pen }
    } else if v == 49 {
        Pen { bg: 0, ..pen }
    } else {
        pen
    }
}

impl Clone for Screen {
    /// A copy of the screen with the same grid, scrollback, title, images
    /// and pending transfers, and a parser in the ground state.
    fn clone(&self) -> (s: Self)
        ensures
            s@ == self@,
            s.title@ == self.title@,
            s.alt_screen == self.alt_screen,
            s.image_store.model() == self.image_store.model(),
            s.kitty_state.pending_map() == self.kitty_state.pending_map(),
            s.apc_pending@ == self.apc_pending@,
            s.parser.history() == Seq::<u8>::empty(),
    {
        let cells = self.cells.clone();
        assert(cells@ =~= self.cells@);
        let scrollback = self.scrollback.clone();
        assert(scrollback@ =~= self.scrollback@);
        let apc_pending = self.apc_pending.clone();
        assert(apc_pending@ =~= self.apc_pending@);
        Screen {
            cols: self.cols,
            rows: self.rows,
            cells,
            cursor_row: self.cursor_row,
            cursor_col: self.cursor_col,
            title: self.title.clone(),
            alt_screen: self.alt_screen,
            pen_fg: self.pen_fg,
            pen_bg: self.pen_bg,
            pen_bold: self.pen_bold,
            pen_italic: self.pen_italic,
            pen_underline: self.pen_underline,
            wrap_pending: self.wrap_pending,
            scrollback,
            image_store: self.image_store.clone(),
            kitty_state: self.kitty_state.clone(),
            apc_pending,
            parser: new_parser(),
        }
    }
}

} // verus!
