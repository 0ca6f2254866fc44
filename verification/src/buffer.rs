//! The ring: what a screen is made of, and the mechanics of moving rows through it.
//!
//! A [`Buffer`] is one screen's worth of storage: the visible rows, the history behind
//! them, the cursor, the scroll region and the tab stops, plus every operation that moves
//! or rewrites rows without knowing what any escape sequence means.
//!
//! ```text
//!     scrollback                   visible (len == rows)
//!     +---+---+---+               +---+---+---+---+
//!     | . | . |old|  <-- scroll --|row|row|row|row|
//!     +---+---+---+               +---+---+---+---+
//! ```
use std::collections::VecDeque;
use vstd::prelude::*;
use crate::cell::{lemma_pen_cells, lemma_plain_cell, narrow_cell, Cell, Cursor, Pen, Saved};
use crate::ids::AbsRow;
use crate::row::{
    lemma_delete_wf, lemma_erase_wf, lemma_filled_wf, lemma_insert_wf, lemma_overwrite_wf, pair_at,
    paired, Row, RowView,
};

verus! {

/// Lines of scrollback the primary screen keeps by default.
pub const DEFAULT_SCROLLBACK: usize = 10_000;

/// Columns between default tab stops.
pub const TAB_WIDTH: usize = 8;

/// How many columns the tab-stop table covers, however wide the screen currently is, so
/// that clearing every stop means every one.
pub const MAX_TAB_COLUMNS: usize = 1024;

/// The most lines a screen and its history may hold together, and the most columns a line
/// may have: what the scrollbar's and the reports' 32-bit counts can speak of.
pub const MAX_SIDE: usize = 0x7fff_ffff;

/// What a scroll did to the rows it moved.
///
/// `pushed` counts the rows that retired into history; `renumbered` says that the ids
/// stopped naming the same lines. Rows live in one stream, history first, and an id is a
/// position in it. A full-screen scroll keeps every id: the retiring row keeps its slot and
/// a blank is appended at the far end. Tearing a row out of the middle, or filling in a
/// blank above rows that did not move, renumbers what lies below.
#[derive(Clone, Copy, PartialEq, Eq, Debug, Structural)]
pub struct Scrolled {
    pub pushed: usize,
    pub renumbered: bool,
}

impl Scrolled {
    /// Nothing moved.
    #[verifier::allow_in_spec]
    pub fn nothing() -> Scrolled
        returns
            (Scrolled { pushed: 0, renumbered: false }),
    {
        Scrolled { pushed: 0, renumbered: false }
    }
}

/// The row at `i`, to be changed in place. Taken on trust, of `VecDeque`'s `index_mut`: the
/// reference it gives is to the element at that index, and what is written through it is the
/// one thing that changes.
#[verifier::external_body]
pub(crate) fn row_mut(rows: &mut VecDeque<Row>, i: usize) -> (row: &mut Row)
    requires
        i < old(rows)@.len(),
    ensures
        *row == old(rows)@[i as int],
        final(rows)@ == old(rows)@.update(i as int, *final(row)),
{
    &mut rows[i]
}

/// One screen buffer.
pub struct Buffer {
    pub cols: usize,
    pub rows: usize,
    /// Visible rows, always exactly `rows` long.
    pub lines: VecDeque<Row>,
    /// History above the screen, oldest at the front, capped at `scrollback_limit`.
    pub scrollback: VecDeque<Row>,
    pub scrollback_limit: usize,
    /// How many rows have left the front of the stream for good. The front only ever moves
    /// forward, which is why an id is never reused.
    pub evicted: u64,
    pub cursor: Cursor,
    /// What was last saved for this buffer.
    pub saved: Option<Saved>,
    /// The scroll region, inclusive.
    pub scroll_top: usize,
    pub scroll_bottom: usize,
    /// `tabs[c]` is true where a horizontal tab lands.
    pub tabs: Vec<bool>,
}

/// A buffer as a value.
#[verifier::ext_equal]
pub struct BufferView {
    pub cols: usize,
    pub rows: usize,
    pub lines: Seq<RowView>,
    pub scrollback: Seq<RowView>,
    pub scrollback_limit: usize,
    pub evicted: u64,
    pub cursor: Cursor,
    pub saved: Option<Saved>,
    pub scroll_top: usize,
    pub scroll_bottom: usize,
    pub tabs: Seq<bool>,
}

/// Rows as values.
pub open spec fn rows_view(rows: Seq<Row>) -> Seq<RowView> {
    rows.map_values(|r: Row| r@)
}

impl View for Buffer {
    type V = BufferView;

    open spec fn view(&self) -> BufferView {
        BufferView {
            cols: self.cols,
            rows: self.rows,
            lines: rows_view(self.lines@),
            scrollback: rows_view(self.scrollback@),
            scrollback_limit: self.scrollback_limit,
            evicted: self.evicted,
            cursor: self.cursor,
            saved: self.saved,
            scroll_top: self.scroll_top,
            scroll_bottom: self.scroll_bottom,
            tabs: self.tabs@,
        }
    }
}

/// The last `n` of `s`, or all of it when it is shorter.
pub open spec fn keep_last<T>(s: Seq<T>, n: int) -> Seq<T> {
    if s.len() > n {
        s.skip(s.len() - n)
    } else {
        s
    }
}

/// `n` counted on from `evicted`, held at the end of the id space.
pub open spec fn count_on(evicted: u64, n: int) -> u64 {
    if evicted + n > u64::MAX {
        u64::MAX
    } else {
        (evicted + n) as u64
    }
}

/// The smaller of two.
pub open spec fn least(a: int, b: int) -> int {
    if a < b {
        a
    } else {
        b
    }
}

/// A side of the screen is at least one cell long.
pub open spec fn side(n: usize) -> usize {
    if n < 1 {
        1
    } else {
        n
    }
}

/// A default tab stop stands in every eighth column.
pub open spec fn default_stop(c: int) -> bool {
    c % TAB_WIDTH as int == 0
}

/// The default tab table of a screen `cols` wide.
pub open spec fn default_stops(cols: int) -> Seq<bool> {
    Seq::new(
        (if cols > MAX_TAB_COLUMNS {
            cols
        } else {
            MAX_TAB_COLUMNS as int
        }) as nat,
        |c: int| default_stop(c),
    )
}

/// `tabs` with defaults for the columns up to `cols` that it has never covered.
pub open spec fn grown_tabs(tabs: Seq<bool>, cols: int) -> Seq<bool> {
    if cols <= tabs.len() {
        tabs
    } else {
        Seq::new(
            cols as nat,
            |c: int|
                if c < tabs.len() {
                    tabs[c]
                } else {
                    default_stop(c)
                },
        )
    }
}

/// The cells of glyphs one after the other: a wide one is a leader and a spacer.
pub open spec fn run_cells(chars: Seq<char>, widths: Seq<u8>, pen: Pen) -> Seq<Cell>
    decreases chars.len(),
{
    if chars.len() == 0 {
        Seq::empty()
    } else {
        run_cells(chars.drop_last(), widths.drop_last(), pen) + glyph(
            chars.last(),
            widths.last() == 2,
            pen,
        )
    }
}

/// The cells of one glyph.
pub open spec fn glyph(c: char, wide: bool, pen: Pen) -> Seq<Cell> {
    if wide {
        seq![pen.leader(c), pen.spacer()]
    } else {
        seq![pen.cell(c)]
    }
}

/// The columns glyphs of these widths take up.
pub open spec fn total_width(widths: Seq<u8>) -> int
    decreases widths.len(),
{
    if widths.len() == 0 {
        0
    } else {
        total_width(widths.drop_last()) + widths.last()
    }
}

/// Every width is one or two.
pub open spec fn glyph_widths(widths: Seq<u8>) -> bool {
    forall|i: int| 0 <= i < widths.len() ==> 1 <= #[trigger] widths[i] <= 2
}

/// Whole rows of `cols` cells.
pub open spec fn rows_wf(rows: Seq<RowView>, cols: int) -> bool {
    forall|i: int| 0 <= i < rows.len() ==> (#[trigger] rows[i]).wf(cols)
}

/// `lines` with rows `top` to `bottom` moved up by `n` and `blank` rows fed in behind.
pub open spec fn lines_up(
    lines: Seq<RowView>,
    top: int,
    bottom: int,
    n: int,
    blank: RowView,
) -> Seq<RowView> {
    Seq::new(
        lines.len(),
        |j: int|
            if j < top || j > bottom {
                lines[j]
            } else if j + n <= bottom {
                lines[j + n]
            } else {
                blank
            },
    )
}

/// `lines` with rows `top` to `bottom` moved down by `n` and `blank` rows fed in above.
pub open spec fn lines_down(
    lines: Seq<RowView>,
    top: int,
    bottom: int,
    n: int,
    blank: RowView,
) -> Seq<RowView> {
    Seq::new(
        lines.len(),
        |j: int|
            if j < top || j > bottom {
                lines[j]
            } else if j - n >= top {
                lines[j - n]
            } else {
                blank
            },
    )
}

impl BufferView {
    /// Exactly `rows` whole visible rows, history within its cap, the cursor and the
    /// region on the screen, the tab table covering the width, and a saved pen that prints
    /// narrow cells.
    pub open spec fn wf(self) -> bool {
        &&& 1 <= self.cols <= MAX_SIDE
        &&& 1 <= self.rows
        &&& self.rows + self.scrollback_limit <= MAX_SIDE
        &&& self.lines.len() == self.rows
        &&& self.scrollback.len() <= self.scrollback_limit
        &&& rows_wf(self.lines, self.cols as int)
        &&& rows_wf(self.scrollback, self.cols as int)
        &&& self.cursor.row < self.rows
        &&& self.cursor.col < self.cols
        &&& self.scroll_top <= self.scroll_bottom < self.rows
        &&& self.cols <= self.tabs.len()
        &&& self.saved matches Some(s) ==> s.pen.wf() && s.cursor.row <= MAX_SIDE && s.cursor.col
            <= MAX_SIDE
    }

    /// The rows in one stream: history first, oldest at the front, then the live screen.
    pub open spec fn stream(self) -> Seq<RowView> {
        self.scrollback + self.lines
    }

    /// The cell on the live screen, blank out of range.
    pub open spec fn cell_at(self, row: int, col: int) -> Cell {
        if 0 <= row < self.lines.len() && 0 <= col < self.lines[row].cells.len() {
            self.lines[row].cells[col]
        } else {
            Cell::blank()
        }
    }

    /// The stream index an id stands for, unless it has left the front.
    pub open spec fn index_of(self, abs: AbsRow) -> Option<int> {
        if abs.0 >= self.evicted && abs.0 - self.evicted <= usize::MAX {
            Some(abs.0 - self.evicted)
        } else {
            None
        }
    }

    /// The row an id names, while it exists.
    pub open spec fn row_of(self, abs: AbsRow) -> Option<RowView> {
        match self.index_of(abs) {
            Some(i) => if i < self.stream().len() {
                Some(self.stream()[i])
            } else {
                None
            },
            None => None,
        }
    }

    /// The id of the row at a stream index.
    pub open spec fn id_at(self, index: int) -> AbsRow {
        AbsRow(count_on(self.evicted, index))
    }

    /// One past the newest row's id.
    pub open spec fn id_end(self) -> AbsRow {
        self.id_at(self.scrollback.len() + self.rows)
    }

    /// A fresh buffer.
    pub open spec fn fresh(cols: usize, rows: usize, limit: usize) -> BufferView {
        let (cols, rows) = (side(cols), side(rows));
        BufferView {
            cols,
            rows,
            lines: Seq::new(rows as nat, |i: int| RowView::filled(cols as int, Cell::blank())),
            scrollback: Seq::empty(),
            scrollback_limit: limit,
            evicted: 0,
            cursor: Cursor::home(),
            saved: None,
            scroll_top: 0,
            scroll_bottom: (rows - 1) as usize,
            tabs: default_stops(cols as int),
        }
    }

    /// The buffer with one visible row replaced.
    pub open spec fn with_line(self, row: int, line: RowView) -> BufferView {
        BufferView { lines: self.lines.update(row, line), ..self }
    }

    /// The buffer with glyphs written over one of its rows.
    pub open spec fn overwrite(self, row: int, start: int, glyphs: Seq<Cell>) -> BufferView {
        self.with_line(row, self.lines[row].overwrite(start, glyphs))
    }

    /// Whether rows leaving the top of the region retire into history.
    pub open spec fn retires(self, top: int, keep: bool) -> bool {
        keep && top == 0 && self.scrollback_limit > 0
    }

    /// The buffer with `rows` retired into history behind what is there.
    pub open spec fn retired(self, rows: Seq<RowView>) -> BufferView {
        BufferView {
            scrollback: keep_last(self.scrollback + rows, self.scrollback_limit as int),
            evicted: if self.scrollback.len() + rows.len() > self.scrollback_limit {
                count_on(
                    self.evicted,
                    self.scrollback.len() + rows.len() - self.scrollback_limit,
                )
            } else {
                self.evicted
            },
            ..self
        }
    }

    /// The region scrolled up by `n`: rows leaving the top of the screen retire into history
    /// where they are kept at all, and `blank` rows feed in at the bottom.
    pub open spec fn scrolled_up(
        self,
        top: int,
        bottom: int,
        n: int,
        blank: Cell,
        keep: bool,
    ) -> BufferView {
        if top > bottom || bottom >= self.rows {
            self
        } else {
            let n = least(n, bottom - top + 1);
            let moved = BufferView {
                lines: lines_up(
                    self.lines,
                    top,
                    bottom,
                    n,
                    RowView::filled(self.cols as int, blank),
                ),
                ..self
            };
            if self.retires(top, keep) {
                moved.retired(self.lines.take(n))
            } else {
                moved
            }
        }
    }

    /// What that scroll did to the rows.
    pub open spec fn scroll_up_effect(self, top: int, bottom: int, n: int, keep: bool) -> Scrolled {
        if top > bottom || bottom >= self.rows || n <= 0 {
            Scrolled::nothing()
        } else if self.retires(top, keep) {
            Scrolled {
                pushed: least(n, bottom - top + 1) as usize,
                renumbered: bottom + 1 < self.rows,
            }
        } else {
            Scrolled { pushed: 0, renumbered: true }
        }
    }

    /// The region scrolled down by `n`. History is never touched.
    pub open spec fn scrolled_down(self, top: int, bottom: int, n: int, blank: Cell) -> BufferView {
        if top > bottom || bottom >= self.rows {
            self
        } else {
            BufferView {
                lines: lines_down(
                    self.lines,
                    top,
                    bottom,
                    least(n, bottom - top + 1),
                    RowView::filled(self.cols as int, blank),
                ),
                ..self
            }
        }
    }

    /// What that scroll did to the rows.
    pub open spec fn scroll_down_effect(self, top: int, bottom: int, n: int) -> Scrolled {
        Scrolled { pushed: 0, renumbered: top <= bottom && bottom < self.rows && n > 0 }
    }

    /// The buffer without its history; the live rows keep their ids.
    pub open spec fn without_history(self) -> BufferView {
        BufferView {
            evicted: count_on(self.evicted, self.scrollback.len() as int),
            scrollback: Seq::empty(),
            ..self
        }
    }

    /// Rows cut or padded to `cols` columns.
    pub open spec fn recolumned(self, cols: usize) -> BufferView {
        if cols == self.cols {
            self
        } else {
            BufferView {
                cols,
                lines: self.lines.map_values(|r: RowView| r.resized(cols as int)),
                scrollback: self.scrollback.map_values(|r: RowView| r.resized(cols as int)),
                tabs: grown_tabs(self.tabs, cols as int),
                cursor: Cursor {
                    col: if self.cursor.col >= cols {
                        (cols - 1) as usize
                    } else {
                        self.cursor.col
                    },
                    ..self.cursor
                },
                ..self
            }
        }
    }

    /// The visible rows made more by pulling recent history back down onto the screen, and
    /// padded with blank rows below once it runs out; or made fewer by dropping rows below
    /// the cursor first and retiring the rest off the top.
    pub open spec fn rerowed(self, rows: usize) -> BufferView {
        if rows >= self.rows {
            let grow = rows - self.rows;
            let pull = least(grow, self.scrollback.len() as int);
            let keep = self.scrollback.len() - pull;
            BufferView {
                lines: self.scrollback.skip(keep) + self.lines + Seq::new(
                    (grow - pull) as nat,
                    |i: int| RowView::filled(self.cols as int, Cell::blank()),
                ),
                scrollback: self.scrollback.take(keep),
                cursor: Cursor { row: (self.cursor.row + pull) as usize, ..self.cursor },
                ..self
            }
        } else {
            let excess = self.rows - rows;
            let below = self.rows - (self.cursor.row + 1);
            let drop = least(excess, below);
            let push = excess - drop;
            let cut = BufferView {
                lines: self.lines.subrange(push, self.rows - drop),
                cursor: Cursor { row: (self.cursor.row - push) as usize, ..self.cursor },
                ..self
            };
            if self.scrollback_limit == 0 {
                cut
            } else {
                cut.retired(self.lines.take(push))
            }
        }
    }

    /// The buffer resized without rewrapping: columns first, then rows, the region back to
    /// the full screen, the cursor on it.
    pub open spec fn resized(self, cols: usize, rows: usize) -> BufferView {
        let (cols, rows) = (side(cols), side(rows));
        let b = self.recolumned(cols).rerowed(rows);
        BufferView {
            rows,
            scroll_top: 0,
            scroll_bottom: (rows - 1) as usize,
            cursor: Cursor { pending_wrap: false, ..b.cursor },
            ..b
        }
    }

    /// Every visible row filled with `fill`.
    pub open spec fn cleared(self, fill: Cell) -> BufferView {
        BufferView {
            lines: Seq::new(
                self.lines.len(),
                |i: int| RowView::filled(self.cols as int, fill),
            ),
            ..self
        }
    }

    /// Where a row-addressing sequence lands: relative to the region and bounded by it
    /// under origin mode, absolute and bounded by the screen otherwise.
    pub open spec fn addressed_row(self, row: int, origin: bool) -> int {
        if origin {
            least(self.scroll_top + row, self.scroll_bottom as int)
        } else {
            least(row, self.rows - 1)
        }
    }

    /// The cursor after a glyph or a run that ends before column `end`: parked in the last
    /// column with a wrap pending where the row is full.
    pub open spec fn advanced(self, end: int, autowrap: bool) -> BufferView {
        BufferView {
            cursor: if end >= self.cols {
                Cursor { col: (self.cols - 1) as usize, pending_wrap: autowrap, ..self.cursor }
            } else {
                Cursor { col: end as usize, pending_wrap: false, ..self.cursor }
            },
            ..self
        }
    }
}

/// The tab table a screen `cols` wide opens with.
pub fn default_tabs(cols: usize) -> (r: Vec<bool>)
    ensures
        r@ == default_stops(cols as int),
{
    let n: usize = if cols > MAX_TAB_COLUMNS {
        cols
    } else {
        MAX_TAB_COLUMNS
    };
    let mut out: Vec<bool> = Vec::new();
    let mut c: usize = 0;
    while c < n
        invariant
            c <= n,
            out@.len() == c,
            forall|i: int| 0 <= i < c ==> #[trigger] out@[i] == default_stop(i),
        decreases n - c,
    {
        out.push(c % TAB_WIDTH == 0);
        c = c + 1;
    }
    assert(out@ =~= default_stops(cols as int));
    out
}

/// The smaller of two.
pub(crate) fn smaller(a: usize, b: usize) -> (r: usize)
    ensures
        r == least(a as int, b as int),
{
    if a < b {
        a
    } else {
        b
    }
}

proof fn lemma_rows_view_push(rows: Seq<Row>, row: Row)
    ensures
        rows_view(rows.push(row)) == rows_view(rows).push(row@),
{
    assert(rows_view(rows.push(row)) =~= rows_view(rows).push(row@));
}

/// Taking the top row of a region out and putting a row in at its bottom moves the rows
/// between up by one.
proof fn lemma_rotate_up(rows: Seq<Row>, top: int, bottom: int, row: Row)
    requires
        0 <= top <= bottom < rows.len(),
    ensures
        rows_view(rows.remove(top).insert(bottom, row)) == lines_up(
            rows_view(rows),
            top,
            bottom,
            1,
            row@,
        ),
{
    let out = rows.remove(top).insert(bottom, row);
    assert forall|j: int| 0 <= j < rows.len() implies rows_view(out)[j] == lines_up(
        rows_view(rows),
        top,
        bottom,
        1,
        row@,
    )[j] by {
        if j < bottom {
            assert(out[j] == rows.remove(top)[j]);
        } else if j > bottom {
            assert(out[j] == rows.remove(top)[j - 1]);
        }
    }
    assert(rows_view(out) =~= lines_up(rows_view(rows), top, bottom, 1, row@));
}

/// Taking the bottom row of a region out and putting a row in at its top moves the rows
/// between down by one.
proof fn lemma_rotate_down(rows: Seq<Row>, top: int, bottom: int, row: Row)
    requires
        0 <= top <= bottom < rows.len(),
    ensures
        rows_view(rows.remove(bottom).insert(top, row)) == lines_down(
            rows_view(rows),
            top,
            bottom,
            1,
            row@,
        ),
{
    let out = rows.remove(bottom).insert(top, row);
    assert forall|j: int| 0 <= j < rows.len() implies rows_view(out)[j] == lines_down(
        rows_view(rows),
        top,
        bottom,
        1,
        row@,
    )[j] by {
        if j < top {
            assert(out[j] == rows.remove(bottom)[j]);
        } else if j > top {
            assert(out[j] == rows.remove(bottom)[j - 1]);
        }
    }
    assert(rows_view(out) =~= lines_down(rows_view(rows), top, bottom, 1, row@));
}

/// Scrolling up `n` rows and one more is scrolling up `n + 1`.
proof fn lemma_lines_up_step(lines: Seq<RowView>, top: int, bottom: int, n: int, blank: RowView)
    requires
        0 <= top <= bottom < lines.len(),
        0 <= n,
    ensures
        lines_up(lines_up(lines, top, bottom, n, blank), top, bottom, 1, blank) == lines_up(
            lines,
            top,
            bottom,
            n + 1,
            blank,
        ),
{
    assert(lines_up(lines_up(lines, top, bottom, n, blank), top, bottom, 1, blank) =~= lines_up(
        lines,
        top,
        bottom,
        n + 1,
        blank,
    ));
}

/// Scrolling down `n` rows and one more is scrolling down `n + 1`.
proof fn lemma_lines_down_step(lines: Seq<RowView>, top: int, bottom: int, n: int, blank: RowView)
    requires
        0 <= top <= bottom < lines.len(),
        0 <= n,
    ensures
        lines_down(lines_down(lines, top, bottom, n, blank), top, bottom, 1, blank) == lines_down(
            lines,
            top,
            bottom,
            n + 1,
            blank,
        ),
{
    assert(lines_down(lines_down(lines, top, bottom, n, blank), top, bottom, 1, blank)
        =~= lines_down(lines, top, bottom, n + 1, blank));
}

impl Buffer {
    /// A fresh buffer, at least one cell by one, whose history holds `scrollback_limit`
    /// lines.
    pub fn new(cols: usize, rows: usize, scrollback_limit: usize) -> (b: Buffer)
        requires
            cols <= MAX_SIDE,
            rows + scrollback_limit < MAX_SIDE,
        ensures
            b@ == BufferView::fresh(cols, rows, scrollback_limit),
            b@.wf(),
    {
        let cols: usize = if cols < 1 {
            1
        } else {
            cols
        };
        let rows: usize = if rows < 1 {
            1
        } else {
            rows
        };
        let mut lines: VecDeque<Row> = VecDeque::with_capacity(rows);
        let mut i: usize = 0;
        while i < rows
            invariant
                i <= rows,
                lines@.len() == i,
                forall|j: int|
                    0 <= j < i ==> (#[trigger] lines@[j])@ == RowView::filled(
                        cols as int,
                        Cell::blank(),
                    ),
            decreases rows - i,
        {
            lines.push_back(Row::filled(cols, Cell::blank()));
            i = i + 1;
        }
        let b = Buffer {
            cols,
            rows,
            lines,
            scrollback: VecDeque::new(),
            scrollback_limit,
            evicted: 0,
            cursor: Cursor::home(),
            saved: None,
            scroll_top: 0,
            scroll_bottom: rows - 1,
            tabs: default_tabs(cols),
        };
        assert(b@.lines =~= BufferView::fresh(cols, rows, scrollback_limit).lines);
        assert(b@.scrollback =~= Seq::empty());
        proof {
            lemma_plain_cell(Cell::blank());
            lemma_filled_wf(cols as int, Cell::blank());
        }
        b
    }

    /// The visible row at `row`.
    pub fn line(&self, row: usize) -> (r: Option<&Row>)
        ensures
            r is Some <==> row < self@.lines.len(),
            r matches Some(l) ==> l@ == self@.lines[row as int],
    {
        if row < self.lines.len() {
            Some(&self.lines[row])
        } else {
            None
        }
    }

    /// The cell on the live screen, blank out of range.
    pub fn cell(&self, row: usize, col: usize) -> (r: Cell)
        ensures
            r == self@.cell_at(row as int, col as int),
    {
        if row < self.lines.len() && col < self.lines[row].cells.len() {
            self.lines[row].cells[col]
        } else {
            Cell::blank()
        }
    }

    /// The row at `idx` in the stream, `None` past the live bottom.
    pub fn stream_row(&self, idx: usize) -> (r: Option<&Row>)
        ensures
            r is Some <==> idx < self@.stream().len(),
            r matches Some(l) ==> l@ == self@.stream()[idx as int],
    {
        if idx < self.scrollback.len() {
            Some(&self.scrollback[idx])
        } else {
            self.line(idx - self.scrollback.len())
        }
    }

    /// The stream index of `abs`, or `None` once it has left the front.
    pub fn stream_index(&self, abs: AbsRow) -> (r: Option<usize>)
        ensures
            self@.index_of(abs) is Some <==> r is Some,
            r matches Some(i) ==> self@.index_of(abs) == Some(i as int),
    {
        if abs.0 >= self.evicted && abs.0 - self.evicted <= usize::MAX as u64 {
            Some((abs.0 - self.evicted) as usize)
        } else {
            None
        }
    }

    /// The row `abs` names, or `None` if it has aged out of history or does not exist yet.
    pub fn abs_row(&self, abs: AbsRow) -> (r: Option<&Row>)
        ensures
            r is Some <==> self@.row_of(abs) is Some,
            r matches Some(l) ==> self@.row_of(abs) == Some(l@),
    {
        match self.stream_index(abs) {
            Some(i) => self.stream_row(i),
            None => None,
        }
    }

    /// The id of the row at stream index `idx`.
    pub fn abs_of(&self, idx: usize) -> (r: AbsRow)
        ensures
            r == self@.id_at(idx as int),
    {
        AbsRow(self.evicted.saturating_add(idx as u64))
    }

    /// One past the newest row's id: the live bottom of the stream.
    pub fn abs_end(&self) -> (r: AbsRow)
        requires
            self@.wf(),
        ensures
            r == self@.id_end(),
    {
        self.abs_of(self.scrollback.len() + self.rows)
    }

    /// The row shown at `display_row` when the view is scrolled `offset` lines up into the
    /// history, `None` past the end.
    pub fn view_row(&self, display_row: usize, offset: usize) -> (r: Option<&Row>)
        requires
            self@.wf(),
            offset <= self@.scrollback.len(),
        ensures
            r is Some <==> self@.scrollback.len() - offset + display_row < self@.stream().len(),
            r matches Some(l) ==> l@ == self@.stream()[self@.scrollback.len() - offset
                + display_row],
    {
        let base: usize = self.scrollback.len() - offset;
        if display_row >= self.rows + offset {
            None
        } else {
            self.stream_row(base + display_row)
        }
    }

    /// Write `cell` at (row, col), breaking any wide pair it straddles and dropping the
    /// marks the overwritten cell carried.
    pub fn write_cell(&mut self, row: usize, col: usize, cell: Cell)
        requires
            old(self)@.wf(),
            row < old(self)@.rows,
            col < old(self)@.cols,
        ensures
            final(self)@ == old(self)@.overwrite(row as int, col as int, seq![cell]),
    {
        assert(self@.lines[row as int].wf(self@.cols as int));
        row_mut(&mut self.lines, row).write_cell(col, cell);
        assert(self@ =~= old(self)@.overwrite(row as int, col as int, seq![cell]));
    }

    /// Write the cells of one glyph at (row, col).
    pub fn write_glyph(&mut self, row: usize, col: usize, c: char, wide: bool, pen: Pen)
        requires
            old(self)@.wf(),
            pen.wf(),
            row < old(self)@.rows,
            col < old(self)@.cols,
            wide ==> col + 1 < old(self)@.cols,
        ensures
            final(self)@ == old(self)@.overwrite(row as int, col as int, glyph(c, wide, pen)),
            final(self)@.wf(),
    {
        proof {
            lemma_glyph_paired(c, wide, pen);
            assert(self@.lines[row as int].wf(self@.cols as int));
            lemma_overwrite_wf(
                self@.lines[row as int],
                self@.cols as int,
                col as int,
                glyph(c, wide, pen),
            );
        }
        if wide {
            let mut cells: Vec<Cell> = Vec::new();
            cells.push(pen.leader_cell(c));
            cells.push(pen.spacer_cell());
            assert(cells@ =~= glyph(c, wide, pen));
            row_mut(&mut self.lines, row).write_run(col, &cells);
        } else {
            row_mut(&mut self.lines, row).write_cell(col, pen.narrow_cell(c));
        }
        assert(self@ =~= old(self)@.overwrite(row as int, col as int, glyph(c, wide, pen)));
    }

    /// Fill a stretch of `row` with ASCII bytes as single-width cells sharing `pen`.
    pub fn fill_ascii_run(&mut self, row: usize, start_col: usize, run: &[u8], pen: Pen)
        requires
            old(self)@.wf(),
            pen.wf(),
            row < old(self)@.rows,
            run@.len() > 0,
            start_col + run@.len() <= old(self)@.cols,
        ensures
            final(self)@ == old(self)@.overwrite(
                row as int,
                start_col as int,
                Seq::new(run@.len(), |i: int| pen.cell(run@[i] as char)),
            ),
            final(self)@.wf(),
    {
        let mut cells: Vec<Cell> = Vec::new();
        let mut k: usize = 0;
        while k < run.len()
            invariant
                k <= run.len(),
                cells@.len() == k,
                forall|i: int| 0 <= i < k ==> #[trigger] cells@[i] == pen.cell(run@[i] as char),
            decreases run.len() - k,
        {
            cells.push(pen.narrow_cell(run[k] as char));
            k = k + 1;
        }
        assert(cells@ =~= Seq::new(run@.len(), |i: int| pen.cell(run@[i] as char)));
        proof {
            assert forall|i: int| 0 <= i < cells@.len() implies #[trigger] pair_at(cells@, i) by {
                lemma_pen_cells(pen, run@[i] as char);
            }
            assert(self@.lines[row as int].wf(self@.cols as int));
            lemma_overwrite_wf(
                self@.lines[row as int],
                self@.cols as int,
                start_col as int,
                cells@,
            );
        }
        row_mut(&mut self.lines, row).write_run(start_col, &cells);
        assert(self@ =~= old(self)@.overwrite(row as int, start_col as int, cells@));
    }

    /// Fill a stretch of `row` with decoded glyphs of widths one and two that fit on it.
    pub fn fill_text_run(
        &mut self,
        row: usize,
        start_col: usize,
        chars: &[char],
        widths: &[u8],
        pen: Pen,
    )
        requires
            old(self)@.wf(),
            pen.wf(),
            row < old(self)@.rows,
            chars@.len() > 0,
            chars@.len() == widths@.len(),
            glyph_widths(widths@),
            start_col + total_width(widths@) <= old(self)@.cols,
        ensures
            final(self)@ == old(self)@.overwrite(
                row as int,
                start_col as int,
                run_cells(chars@, widths@, pen),
            ),
            final(self)@.wf(),
    {
        let mut cells: Vec<Cell> = Vec::new();
        let mut k: usize = 0;
        assert(chars@.take(0) =~= Seq::empty());
        while k < chars.len()
            invariant
                k <= chars.len(),
                chars@.len() == widths@.len(),
                cells@ == run_cells(chars@.take(k as int), widths@.take(k as int), pen),
            decreases chars.len() - k,
        {
            assert(chars@.take(k + 1).drop_last() =~= chars@.take(k as int));
            assert(widths@.take(k + 1).drop_last() =~= widths@.take(k as int));
            let ghost before = cells@;
            if widths[k] == 2 {
                cells.push(pen.leader_cell(chars[k]));
                cells.push(pen.spacer_cell());
            } else {
                cells.push(pen.narrow_cell(chars[k]));
            }
            assert(cells@ =~= before + glyph(chars@[k as int], widths@[k as int] == 2, pen));
            k = k + 1;
        }
        assert(chars@.take(k as int) =~= chars@);
        assert(widths@.take(k as int) =~= widths@);
        proof {
            lemma_run_cells(chars@, widths@, pen);
            assert(self@.lines[row as int].wf(self@.cols as int));
            lemma_overwrite_wf(
                self@.lines[row as int],
                self@.cols as int,
                start_col as int,
                cells@,
            );
        }
        row_mut(&mut self.lines, row).write_run(start_col, &cells);
        assert(self@ =~= old(self)@.overwrite(row as int, start_col as int, cells@));
    }

    /// Where a row-addressing sequence lands `row`.
    pub fn origin_row(&self, row: usize, origin: bool) -> (r: usize)
        requires
            self@.wf(),
        ensures
            r == self@.addressed_row(row as int, origin),
            r < self@.rows,
    {
        if origin {
            smaller(self.scroll_top.saturating_add(row), self.scroll_bottom)
        } else {
            smaller(row, self.rows - 1)
        }
    }

    /// Mint default tab stops for columns the table has never covered.
    pub fn grow_tabs(&mut self, cols: usize)
        ensures
            final(self)@ == (BufferView {
                tabs: grown_tabs(old(self)@.tabs, cols as int),
                ..old(self)@
            }),
    {
        let ghost before = self.tabs@;
        while self.tabs.len() < cols
            invariant
                before.len() <= self.tabs@.len(),
                self.tabs@.len() <= cols || self.tabs@ == before,
                forall|c: int|
                    0 <= c < self.tabs@.len() ==> #[trigger] self.tabs@[c] == (if c
                        < before.len() {
                        before[c]
                    } else {
                        default_stop(c)
                    }),
                self@ == (BufferView { tabs: self.tabs@, ..old(self)@ }),
            decreases cols - self.tabs.len(),
        {
            let c = self.tabs.len();
            self.tabs.push(c % TAB_WIDTH == 0);
        }
        assert(self.tabs@ =~= grown_tabs(before, cols as int));
    }

    /// Move the cursor past what was just printed, up to column `end`: park it in the last
    /// column with a wrap pending where the row is full.
    pub fn advance_cursor(&mut self, end: usize, autowrap: bool)
        requires
            old(self)@.wf(),
        ensures
            final(self)@ == old(self)@.advanced(end as int, autowrap),
            final(self)@.wf(),
    {
        if end >= self.cols {
            self.cursor.col = self.cols - 1;
            self.cursor.pending_wrap = autowrap;
        } else {
            self.cursor.col = end;
            self.cursor.pending_wrap = false;
        }
    }

    /// Scroll rows `top` to `bottom` up by `n`, feeding blank rows in at the bottom. Rows
    /// leaving the top of the screen retire into history when `to_scrollback` says so;
    /// otherwise they are discarded. Either way their storage is recycled.
    pub fn scroll_up_range(
        &mut self,
        top: usize,
        bottom: usize,
        n: usize,
        blank: Cell,
        to_scrollback: bool,
    ) -> (out: Scrolled)
        requires
            old(self)@.wf(),
            narrow_cell(blank),
        ensures
            final(self)@ == old(self)@.scrolled_up(
                top as int,
                bottom as int,
                n as int,
                blank,
                to_scrollback,
            ),
            final(self)@.wf(),
            out == old(self)@.scroll_up_effect(top as int, bottom as int, n as int, to_scrollback),
    {
        if top > bottom || bottom >= self.rows {
            return Scrolled::nothing();
        }
        let n: usize = smaller(n, bottom - top + 1);
        let retire = to_scrollback && top == 0 && self.scrollback_limit > 0;
        let ghost before = self@;
        let ghost fill = RowView::filled(self.cols as int, blank);
        let mut i: usize = 0;
        assert(rows_view(self.lines@) =~= lines_up(
            before.lines,
            top as int,
            bottom as int,
            0,
            fill,
        ));
        assert(before.retired(before.lines.take(0)).scrollback =~= before.scrollback);
        while i < n
            invariant
                i <= n,
                n <= bottom - top + 1,
                top <= bottom,
                bottom < self.rows,
                before.wf(),
                retire == before.retires(top as int, to_scrollback),
                fill == RowView::filled(before.cols as int, blank),
                self@ == (BufferView {
                    lines: rows_view(self.lines@),
                    scrollback: rows_view(self.scrollback@),
                    evicted: self.evicted,
                    ..before
                }),
                self.lines@.len() == before.rows,
                rows_view(self.lines@) == lines_up(
                    before.lines,
                    top as int,
                    bottom as int,
                    i as int,
                    fill,
                ),
                retire ==> rows_view(self.scrollback@) == before.retired(
                    before.lines.take(i as int),
                ).scrollback,
                retire ==> self.evicted == before.retired(before.lines.take(i as int)).evicted,
                !retire ==> rows_view(self.scrollback@) == before.scrollback && self.evicted
                    == before.evicted,
            decreases n - i,
        {
            let ghost lines0 = self.lines@;
            let ghost sb0 = self.scrollback@;
            let leaving = match self.lines.remove(top) {
                Some(row) => row,
                None => Row::filled(self.cols, blank),
            };
            assert(rows_view(lines0)[top as int] == leaving@);
            assert(leaving@ == before.lines[top + i]);
            let mut recycled = if retire {
                self.scrollback.push_back(leaving);
                proof {
                    lemma_rows_view_push(sb0, leaving);
                    assert(before.lines.take(i + 1) =~= before.lines.take(i as int).push(
                        before.lines[i as int],
                    ));
                    assert(before.scrollback + before.lines.take(i + 1) =~= (before.scrollback
                        + before.lines.take(i as int)).push(before.lines[i as int]));
                }
                let ghost all = before.scrollback + before.lines.take(i as int);
                let ghost all1 = before.scrollback + before.lines.take(i + 1);
                if self.scrollback.len() > self.scrollback_limit {
                    self.evicted = self.evicted.saturating_add(1);
                    let ghost sb1 = self.scrollback@;
                    let front = self.scrollback.pop_front();
                    assert(rows_view(self.scrollback@) =~= rows_view(sb1).skip(1));
                    assert(rows_view(self.scrollback@) =~= keep_last(
                        all1,
                        before.scrollback_limit as int,
                    ));
                    match front {
                        Some(row) => row,
                        None => Row::filled(self.cols, blank),
                    }
                } else {
                    assert(rows_view(self.scrollback@) =~= keep_last(
                        all1,
                        before.scrollback_limit as int,
                    ));
                    Row::filled(self.cols, blank)
                }
            } else {
                leaving
            };
            recycled.reset(self.cols, blank);
            let ghost fresh = recycled;
            self.lines.insert(bottom, recycled);
            i = i + 1;
            proof {
                lemma_rotate_up(lines0, top as int, bottom as int, fresh);
                lemma_lines_up_step(before.lines, top as int, bottom as int, i - 1, fill);
            }
            assert(rows_view(self.lines@) =~= lines_up(
                before.lines,
                top as int,
                bottom as int,
                i as int,
                fill,
            ));
        }
        proof {
            lemma_filled_wf(before.cols as int, blank);
            lemma_scrolled_up_wf(before, top as int, bottom as int, n as int, blank, to_scrollback);
        }
        assert(self@ =~= before.scrolled_up(
            top as int,
            bottom as int,
            n as int,
            blank,
            to_scrollback,
        ));
        if n == 0 {
            Scrolled::nothing()
        } else if retire {
            Scrolled { pushed: n, renumbered: bottom + 1 < self.rows }
        } else {
            Scrolled { pushed: 0, renumbered: true }
        }
    }

    /// Scroll rows `top` to `bottom` down by `n`, feeding blank rows in at the top. The
    /// content slides down while the ids stay where they are, which renumbers it.
    pub fn scroll_down_range(&mut self, top: usize, bottom: usize, n: usize, blank: Cell) -> (out:
        Scrolled)
        requires
            old(self)@.wf(),
            narrow_cell(blank),
        ensures
            final(self)@ == old(self)@.scrolled_down(top as int, bottom as int, n as int, blank),
            final(self)@.wf(),
            out == old(self)@.scroll_down_effect(top as int, bottom as int, n as int),
    {
        if top > bottom || bottom >= self.rows {
            return Scrolled::nothing();
        }
        let n: usize = smaller(n, bottom - top + 1);
        let ghost before = self@;
        let ghost fill = RowView::filled(self.cols as int, blank);
        let mut i: usize = 0;
        assert(rows_view(self.lines@) =~= lines_down(
            before.lines,
            top as int,
            bottom as int,
            0,
            fill,
        ));
        while i < n
            invariant
                i <= n,
                n <= bottom - top + 1,
                top <= bottom,
                bottom < self.rows,
                before.wf(),
                fill == RowView::filled(before.cols as int, blank),
                self@ == (BufferView { lines: rows_view(self.lines@), ..before }),
                self.lines@.len() == before.rows,
                rows_view(self.lines@) == lines_down(
                    before.lines,
                    top as int,
                    bottom as int,
                    i as int,
                    fill,
                ),
            decreases n - i,
        {
            let ghost lines0 = self.lines@;
            let mut recycled = match self.lines.remove(bottom) {
                Some(row) => row,
                None => Row::filled(self.cols, blank),
            };
            assert(rows_view(lines0)[bottom as int] == recycled@);
            recycled.reset(self.cols, blank);
            let ghost fresh = recycled;
            self.lines.insert(top, recycled);
            i = i + 1;
            proof {
                lemma_rotate_down(lines0, top as int, bottom as int, fresh);
                lemma_lines_down_step(before.lines, top as int, bottom as int, i - 1, fill);
            }
            assert(rows_view(self.lines@) =~= lines_down(
                before.lines,
                top as int,
                bottom as int,
                i as int,
                fill,
            ));
        }
        proof {
            lemma_filled_wf(before.cols as int, blank);
        }
        assert(self@ =~= before.scrolled_down(top as int, bottom as int, n as int, blank));
        Scrolled { pushed: 0, renumbered: n > 0 }
    }

    /// Push a row off the top into history, evicting the oldest if the ring is full. A
    /// buffer that keeps no history drops the row.
    pub fn push_history(&mut self, row: Row)
        requires
            old(self)@.scrollback.len() <= old(self)@.scrollback_limit,
        ensures
            final(self)@ == (if old(self)@.scrollback_limit == 0 {
                old(self)@
            } else {
                old(self)@.retired(seq![row@])
            }),
    {
        if self.scrollback_limit == 0 {
            return;
        }
        let ghost before = self@;
        let ghost sb0 = self.scrollback@;
        self.scrollback.push_back(row);
        proof {
            lemma_rows_view_push(sb0, row);
            assert(before.scrollback + seq![row@] =~= before.scrollback.push(row@));
        }
        if self.scrollback.len() > self.scrollback_limit {
            let ghost sb1 = self.scrollback@;
            let _ = self.scrollback.pop_front();
            assert(rows_view(self.scrollback@) =~= rows_view(sb1).skip(1));
            self.evicted = self.evicted.saturating_add(1);
        }
        assert(self@ =~= before.retired(seq![row@]));
    }

    /// Drop the whole history. The live rows keep the ids they had.
    pub fn clear_history(&mut self)
        requires
            old(self)@.wf(),
        ensures
            final(self)@ == old(self)@.without_history(),
            final(self)@.wf(),
    {
        self.evicted = self.evicted.saturating_add(self.scrollback.len() as u64);
        self.scrollback.clear();
        assert(self@ =~= old(self)@.without_history());
    }

    /// Overwrite every cell of `row` with `fill`, dropping its marks and its wrap link.
    pub fn clear_line_full(&mut self, row: usize, fill: Cell)
        requires
            old(self)@.wf(),
            narrow_cell(fill),
            row < old(self)@.rows,
        ensures
            final(self)@ == old(self)@.with_line(
                row as int,
                RowView::filled(old(self)@.cols as int, fill),
            ),
            final(self)@.wf(),
    {
        assert(self@.lines[row as int].wf(self@.cols as int));
        row_mut(&mut self.lines, row).clear_full(fill);
        proof {
            lemma_filled_wf(self.cols as int, fill);
        }
        assert(self@ =~= old(self)@.with_line(
            row as int,
            RowView::filled(old(self)@.cols as int, fill),
        ));
    }

    /// Blank cells `start` up to `end` of `row`, never splitting a wide glyph.
    pub fn clear_line_range(&mut self, row: usize, start: usize, end: usize, blank: Cell)
        requires
            old(self)@.wf(),
            narrow_cell(blank),
            row < old(self)@.rows,
        ensures
            final(self)@ == old(self)@.with_line(
                row as int,
                old(self)@.lines[row as int].erase(start as int, end as int, blank),
            ),
            final(self)@.wf(),
    {
        proof {
            assert(self@.lines[row as int].wf(self@.cols as int));
            lemma_erase_wf(
                self@.lines[row as int],
                self@.cols as int,
                start as int,
                end as int,
                blank,
            );
        }
        row_mut(&mut self.lines, row).clear_range(start, end, blank);
        assert(self@ =~= old(self)@.with_line(
            row as int,
            old(self)@.lines[row as int].erase(start as int, end as int, blank),
        ));
    }

    /// ICH on one row.
    pub fn insert_blanks(&mut self, row: usize, col: usize, n: usize, blank: Cell)
        requires
            old(self)@.wf(),
            narrow_cell(blank),
            row < old(self)@.rows,
        ensures
            final(self)@ == old(self)@.with_line(
                row as int,
                old(self)@.lines[row as int].insert(col as int, n as int, blank),
            ),
            final(self)@.wf(),
    {
        proof {
            assert(self@.lines[row as int].wf(self@.cols as int));
            lemma_insert_wf(
                self@.lines[row as int],
                self@.cols as int,
                col as int,
                n as int,
                blank,
            );
        }
        row_mut(&mut self.lines, row).insert_blanks(col, n, blank);
        assert(self@ =~= old(self)@.with_line(
            row as int,
            old(self)@.lines[row as int].insert(col as int, n as int, blank),
        ));
    }

    /// DCH on one row.
    pub fn delete_chars(&mut self, row: usize, col: usize, n: usize, blank: Cell)
        requires
            old(self)@.wf(),
            narrow_cell(blank),
            row < old(self)@.rows,
        ensures
            final(self)@ == old(self)@.with_line(
                row as int,
                old(self)@.lines[row as int].delete(col as int, n as int, blank),
            ),
            final(self)@.wf(),
    {
        proof {
            assert(self@.lines[row as int].wf(self@.cols as int));
            lemma_delete_wf(
                self@.lines[row as int],
                self@.cols as int,
                col as int,
                n as int,
                blank,
            );
        }
        row_mut(&mut self.lines, row).delete_chars(col, n, blank);
        assert(self@ =~= old(self)@.with_line(
            row as int,
            old(self)@.lines[row as int].delete(col as int, n as int, blank),
        ));
    }

    /// Fill every visible row with `fill`.
    pub fn clear_all(&mut self, fill: Cell)
        requires
            old(self)@.wf(),
            narrow_cell(fill),
        ensures
            final(self)@ == old(self)@.cleared(fill),
            final(self)@.wf(),
    {
        let ghost before = self@;
        let mut row: usize = 0;
        while row < self.rows
            invariant
                row <= self.rows,
                before.wf(),
                self@.wf(),
                narrow_cell(fill),
                self@ == (BufferView { lines: rows_view(self.lines@), ..before }),
                forall|i: int|
                    0 <= i < row ==> #[trigger] self@.lines[i] == RowView::filled(
                        before.cols as int,
                        fill,
                    ),
            decreases self.rows - row,
        {
            self.clear_line_full(row, fill);
            row = row + 1;
        }
        assert(self@ =~= before.cleared(fill));
    }
}

/// A scroll up keeps a buffer well formed.
pub proof fn lemma_scrolled_up_wf(
    b: BufferView,
    top: int,
    bottom: int,
    n: int,
    blank: Cell,
    keep: bool,
)
    requires
        b.wf(),
        narrow_cell(blank),
        0 <= top,
        0 <= n,
    ensures
        b.scrolled_up(top, bottom, n, blank, keep).wf(),
{
    lemma_filled_wf(b.cols as int, blank);
    if top <= bottom && bottom < b.rows {
        let n = least(n, bottom - top + 1);
        let o = b.scrolled_up(top, bottom, n, blank, keep);
        assert(rows_wf(o.lines, b.cols as int));
        if b.retires(top, keep) {
            lemma_retired_rows(b, b.lines.take(n));
        }
    }
}

proof fn lemma_retired_rows(b: BufferView, rows: Seq<RowView>)
    requires
        rows_wf(b.scrollback, b.cols as int),
        rows_wf(rows, b.cols as int),
    ensures
        rows_wf(b.retired(rows).scrollback, b.cols as int),
        b.retired(rows).scrollback.len() <= b.scrollback_limit,
{
    let all = b.scrollback + rows;
    let o = b.retired(rows).scrollback;
    assert forall|i: int| 0 <= i < o.len() implies (#[trigger] o[i]).wf(b.cols as int) by {
        let j = if all.len() > b.scrollback_limit {
            i + all.len() - b.scrollback_limit
        } else {
            i
        };
        assert(o[i] == all[j]);
        if j < b.scrollback.len() {
            assert(all[j] == b.scrollback[j]);
        } else {
            assert(all[j] == rows[j - b.scrollback.len()]);
        }
    }
}

/// The cells of one glyph are whole.
pub proof fn lemma_glyph_paired(c: char, wide: bool, pen: Pen)
    requires
        pen.wf(),
    ensures
        paired(glyph(c, wide, pen)),
{
    lemma_pen_cells(pen, c);
    let g = glyph(c, wide, pen);
    assert forall|i: int| 0 <= i < g.len() implies #[trigger] pair_at(g, i) by {}
}

/// A run's cells are whole, and as many as its columns.
pub proof fn lemma_run_cells(chars: Seq<char>, widths: Seq<u8>, pen: Pen)
    requires
        pen.wf(),
        chars.len() == widths.len(),
        glyph_widths(widths),
    ensures
        paired(run_cells(chars, widths, pen)),
        run_cells(chars, widths, pen).len() == total_width(widths),
        total_width(widths) >= chars.len(),
    decreases chars.len(),
{
    if chars.len() > 0 {
        let w = widths.drop_last();
        assert forall|i: int| 0 <= i < w.len() implies 1 <= #[trigger] w[i] <= 2 by {
            assert(w[i] == widths[i]);
        }
        assert(1 <= widths[widths.len() - 1] <= 2);
        lemma_run_cells(chars.drop_last(), w, pen);
        let a = run_cells(chars.drop_last(), w, pen);
        let g = glyph(chars.last(), widths.last() == 2, pen);
        lemma_glyph_paired(chars.last(), widths.last() == 2, pen);
        lemma_paired_append(a, g);
    } else {
        assert(run_cells(chars, widths, pen) =~= Seq::empty());
    }
}

/// Two whole runs one after the other are a whole run.
pub proof fn lemma_paired_append(a: Seq<Cell>, b: Seq<Cell>)
    requires
        paired(a),
        paired(b),
    ensures
        paired(a + b),
{
    let s = a + b;
    assert forall|i: int| 0 <= i < s.len() implies #[trigger] pair_at(s, i) by {
        if i < a.len() {
            assert(pair_at(a, i));
        } else {
            assert(pair_at(b, i - a.len()));
        }
    }
}

} // verus!
