//! Rewrapping a buffer to a new width.
//!
//! ```text
//!   unwrap                      rewrap to new_cols        re-split (cursor on screen)
//!   physical rows --> logical lines --> physical rows --> scrollback + live screen
//!        (the wrap link             (chunks of new_cols,      (the bottom new_rows are
//!         joins the runs)            no glyph ever split)      live; the rest is history)
//! ```
use std::collections::VecDeque;
use vstd::prelude::*;
use crate::attrs::{lemma_wide_bits, Attrs};
use crate::buffer::{
    count_on, grown_tabs, keep_last, least, lemma_paired_append, rows_view, rows_wf, side, smaller,
    Buffer, BufferView, MAX_SIDE,
};
use crate::cell::{lemma_plain_cell, Cell, Cursor, Saved};
use crate::ids::AbsRow;
use crate::row::{
    drop_marks, lemma_drop_marks, lemma_filled_wf, lemma_resized_wf, marks_below, marks_of,
    pair_at, paired, CombiningMark, Row, RowView,
};

verus! {

/// The widest a logical line may grow before the boundary is treated as a hard break. It
/// bounds the rewrap of a line against a child that prints megabytes with no newline.
pub const MAX_LOGICAL_COLS: usize = 1024;

/// A logical line reassembled from a run of soft-wrapped rows: the flat cells, and the
/// marks re-keyed to the logical column.
pub struct LogicalLine {
    pub cells: Vec<Cell>,
    pub combining: Vec<CombiningMark>,
}

/// A logical line as a value.
#[verifier::ext_equal]
pub struct LineView {
    pub cells: Seq<Cell>,
    pub marks: Seq<CombiningMark>,
}

impl View for LogicalLine {
    type V = LineView;

    open spec fn view(&self) -> LineView {
        LineView { cells: self.cells@, marks: self.combining@ }
    }
}

/// Logical lines as values.
pub open spec fn lines_view(lines: Seq<LogicalLine>) -> Seq<LineView> {
    lines.map_values(|l: LogicalLine| l@)
}

/// How many of the first `end` cells are left once trailing blanks without a mark are
/// trimmed away. A coloured or marked cell is content and stops the trim.
pub open spec fn content_len(line: LineView, end: int) -> int
    decreases end,
{
    if end > 0 && line.cells[end - 1] == Cell::blank() && marks_of(line.marks, end - 1).len()
        == 0 {
        content_len(line, end - 1)
    } else {
        end
    }
}

/// The marks of the line in columns below `end`.
pub open spec fn marks_under(marks: Seq<CombiningMark>, end: int) -> Seq<CombiningMark> {
    drop_marks(marks, end, usize::MAX as int)
}

impl LineView {
    /// A line of nothing.
    pub open spec fn empty() -> LineView {
        LineView { cells: Seq::empty(), marks: Seq::empty() }
    }

    /// The line without its trailing padding.
    pub open spec fn trimmed(self) -> LineView {
        let end = content_len(self, self.cells.len() as int);
        LineView { cells: self.cells.take(end), marks: marks_under(self.marks, end) }
    }

    /// The line with `row` joined on behind it; the blank a wide glyph left in the last
    /// column when it wrapped is padding and goes.
    pub open spec fn joined(self, row: RowView, padded: bool) -> LineView {
        let base = self.cells.len() as int;
        let cells = self.cells + row.cells;
        LineView {
            cells: if padded {
                cells.drop_last()
            } else {
                cells
            },
            marks: self.marks + row.marks.map_values(
                |m: CombiningMark| CombiningMark { col: (base + m.col) as usize, ch: m.ch },
            ),
        }
    }

    /// Whole glyphs, and marks that a machine word can count.
    pub open spec fn wf(self) -> bool {
        &&& paired(self.cells)
        &&& marks_below(self.marks, MAX_SIDE + MAX_LOGICAL_COLS)
    }
}

/// The work of unwrapping, after some of the rows.
#[verifier::ext_equal]
pub struct Unwrapped {
    /// The lines closed so far.
    pub lines: Seq<LineView>,
    /// Per row: the line it joined, and the column its first cell has there.
    pub old: Seq<(int, int)>,
    /// The line still open.
    pub cur: LineView,
    /// Whether the open line has any rows.
    pub pending: bool,
}

/// The row's last column is blank only because the next row begins with a wide glyph that
/// did not fit there. A marked blank is content, not padding.
pub open spec fn wrap_padding(rows: Seq<RowView>, k: int) -> bool {
    &&& rows[k].wrapped
    &&& rows[k].cells.last() == Cell::blank()
    &&& marks_of(rows[k].marks, rows[k].cells.len() - 1).len() == 0
    &&& k + 1 < rows.len()
    &&& rows[k + 1].cells[0].leader()
}

/// The first `k` rows unwrapped. A line closes on a hard newline, or when it reaches the
/// cap.
pub open spec fn unwrap(rows: Seq<RowView>, k: int) -> Unwrapped
    decreases k,
{
    if k <= 0 {
        Unwrapped {
            lines: Seq::empty(),
            old: Seq::empty(),
            cur: LineView::empty(),
            pending: false,
        }
    } else {
        let u = unwrap(rows, k - 1);
        let row = rows[k - 1];
        let old = u.old.push((u.lines.len() as int, u.cur.cells.len() as int));
        let line = u.cur.joined(row, wrap_padding(rows, k - 1));
        if !row.wrapped || line.cells.len() >= MAX_LOGICAL_COLS {
            Unwrapped {
                lines: u.lines.push(line.trimmed()),
                old,
                cur: LineView::empty(),
                pending: false,
            }
        } else {
            Unwrapped { lines: u.lines, old, cur: line, pending: true }
        }
    }
}

/// The logical lines of the rows, an open one closed at the end.
pub open spec fn logical_lines(rows: Seq<RowView>) -> Seq<LineView> {
    let u = unwrap(rows, rows.len() as int);
    if u.pending {
        u.lines.push(u.cur.trimmed())
    } else {
        u.lines
    }
}

/// Where each row's cells went: its line and its first column there.
pub open spec fn row_origins(rows: Seq<RowView>) -> Seq<(int, int)> {
    unwrap(rows, rows.len() as int).old
}

/// How many of the first `keep` lines are left once empty ones past `floor` are dropped.
pub open spec fn kept_count(lines: Seq<LineView>, keep: int, floor: int) -> int
    decreases keep,
{
    if keep > floor + 1 && keep > 0 && lines[keep - 1].cells.len() == 0 {
        kept_count(lines, keep - 1, floor)
    } else {
        keep
    }
}

/// One row laid out from a line, and the line's column its first cell has.
#[verifier::ext_equal]
pub struct Laid {
    pub start: int,
    pub row: RowView,
}

/// The row whose cells are `cells` padded with blanks to `cols`.
pub open spec fn padded_row(cells: Seq<Cell>, cols: int, wrapped: bool) -> RowView {
    RowView {
        cells: Seq::new(
            cols as nat,
            |j: int|
                if j < cells.len() {
                    cells[j]
                } else {
                    Cell::blank()
                },
        ),
        marks: Seq::empty(),
        wrapped,
    }
}

/// The marks in columns `lo` up to `hi`, counted from `lo`.
pub open spec fn window_marks(marks: Seq<CombiningMark>, lo: int, hi: int) -> Seq<CombiningMark>
    decreases marks.len(),
{
    if marks.len() == 0 {
        Seq::empty()
    } else {
        let rest = window_marks(marks.drop_last(), lo, hi);
        let m = marks.last();
        if lo <= m.col < hi {
            rest.push(CombiningMark { col: (m.col - lo) as usize, ch: m.ch })
        } else {
            rest
        }
    }
}

/// Where the row that starts at column `i` of a line ends: after `cols` cells, or one
/// earlier where that would part a wide glyph's halves, but never before its first cell.
pub open spec fn chunk_end(cells: Seq<Cell>, cols: int, i: int) -> int {
    let end = least(i + cols, cells.len() as int);
    let end = if end < cells.len() && cells[end - 1].leader() {
        end - 1
    } else {
        end
    };
    if end <= i {
        i + 1
    } else {
        end
    }
}

/// The row at column `i` holds the leader of a wide glyph and no room for its spacer.
pub open spec fn chunk_clips(cells: Seq<Cell>, cols: int, i: int) -> bool {
    cells[i].leader() && chunk_end(cells, cols, i) == i + 1
}

/// The column at which the row after the one at column `i` starts: a clipped glyph's
/// spacer is dropped.
pub open spec fn chunk_next(cells: Seq<Cell>, cols: int, i: int) -> int {
    if chunk_clips(cells, cols, i) && i + 1 < cells.len() && cells[i + 1].spacer() {
        i + 2
    } else {
        chunk_end(cells, cols, i)
    }
}

/// The row laid out from column `i` of a line. A wide glyph that cannot have its second
/// column is stored clipped, as an ordinary cell.
pub open spec fn chunk_row(line: LineView, cols: int, i: int) -> RowView {
    let end = chunk_end(line.cells, cols, i);
    let clipped = Cell { attrs: line.cells[i].attrs.without(Attrs(128)), ..line.cells[i] };
    let cells = if chunk_clips(line.cells, cols, i) {
        seq![clipped]
    } else {
        line.cells.subrange(i, end)
    };
    RowView {
        marks: window_marks(line.marks, i, end),
        ..padded_row(cells, cols, chunk_next(line.cells, cols, i) < line.cells.len())
    }
}

/// The rows of a line from its column `i` on.
pub open spec fn lay_from(line: LineView, cols: int, i: int) -> Seq<Laid>
    decreases line.cells.len() - i,
{
    if i < 0 || i >= line.cells.len() {
        Seq::empty()
    } else {
        seq![Laid { start: i, row: chunk_row(line, cols, i) }] + lay_from(
            line,
            cols,
            chunk_next(line.cells, cols, i),
        )
    }
}

/// The rows of a line. An empty one is a bare newline and still shows one blank row.
pub open spec fn lay_line(line: LineView, cols: int) -> Seq<Laid> {
    if line.cells.len() == 0 {
        seq![Laid { start: 0, row: RowView::filled(cols, Cell::blank()) }]
    } else {
        lay_from(line, cols, 0)
    }
}

/// The rows of the first `k` lines.
pub open spec fn lay_lines(lines: Seq<LineView>, cols: int, k: int) -> Seq<Laid>
    decreases k,
{
    if k <= 0 {
        Seq::empty()
    } else {
        lay_lines(lines, cols, k - 1) + lay_line(lines[k - 1], cols)
    }
}

/// Translates positions anchored by row id from a buffer's geometry before a reflow to
/// after it, so a selection and the prompt marks follow the cells they name.
pub struct RowRemap {
    /// The evicted count when the reflow ran; both the old and the new ids count from it.
    pub evicted: u64,
    /// The evicted count once it had run: a row below it was pushed out of history by the
    /// rewrap itself.
    pub kept_from: u64,
    pub new_cols: usize,
    /// How many logical lines were laid out. An old row of a later line was a trailing
    /// blank and maps to nothing.
    pub lines_len: usize,
    /// Per old row of the reflowed region: its logical line and its first column there.
    pub old: Vec<(usize, usize)>,
    /// First new row of each logical line; the last entry is the reflowed length.
    pub line_first: Vec<usize>,
    /// Per new row of the reflowed region: the logical column of its first cell.
    pub new_start: Vec<usize>,
    /// The old row where the frozen prompt region began.
    pub frozen_from: usize,
    /// The new row where it begins.
    pub reflowed_len: usize,
}

/// A remap as a value.
#[verifier::ext_equal]
pub struct RemapView {
    pub evicted: u64,
    pub kept_from: u64,
    pub new_cols: int,
    pub lines_len: int,
    pub old: Seq<(int, int)>,
    pub line_first: Seq<int>,
    pub new_start: Seq<int>,
    pub frozen_from: int,
    pub reflowed_len: int,
}

/// Pairs of machine words as pairs of integers.
pub open spec fn pairs_view(v: Seq<(usize, usize)>) -> Seq<(int, int)> {
    v.map_values(|p: (usize, usize)| (p.0 as int, p.1 as int))
}

/// Machine words as integers.
pub open spec fn ints_view(v: Seq<usize>) -> Seq<int> {
    v.map_values(|n: usize| n as int)
}

impl View for RowRemap {
    type V = RemapView;

    open spec fn view(&self) -> RemapView {
        RemapView {
            evicted: self.evicted,
            kept_from: self.kept_from,
            new_cols: self.new_cols as int,
            lines_len: self.lines_len as int,
            old: pairs_view(self.old@),
            line_first: ints_view(self.line_first@),
            new_start: ints_view(self.new_start@),
            frozen_from: self.frozen_from as int,
            reflowed_len: self.reflowed_len as int,
        }
    }
}

/// The last of the rows `lo` up to `hi` whose first column is not past `off`, or the first
/// of them when all are.
pub open spec fn holding(starts: Seq<int>, lo: int, hi: int, off: int) -> int
    decreases hi - lo,
{
    if hi - 1 <= lo || starts[hi - 1] <= off {
        hi - 1
    } else {
        holding(starts, lo, hi - 1, off)
    }
}

/// The larger of two.
pub open spec fn most(a: int, b: int) -> int {
    if a < b {
        b
    } else {
        a
    }
}

impl RemapView {
    /// Every line laid out has rows, and the tables speak of the same rows.
    pub open spec fn wf(self) -> bool {
        &&& self.new_cols >= 1
        &&& self.lines_len >= 0
        &&& self.line_first.len() == self.lines_len + 1
        &&& forall|j: int|
            0 <= j < self.lines_len ==> 0 <= #[trigger] self.line_first[j] < self.line_first[j + 1]
                && self.line_first[j + 1] <= self.new_start.len()
    }

    /// The new row and column of the cell at an old row and column, or nothing if its row
    /// was a trailing blank the reflow absorbed.
    pub open spec fn place(self, row: int, col: int) -> Option<(int, int)> {
        if row >= self.frozen_from {
            Some(
                (
                    least(self.reflowed_len + (row - self.frozen_from), usize::MAX as int),
                    least(col, self.new_cols - 1),
                ),
            )
        } else if row >= self.old.len() || self.old[row].0 >= self.lines_len {
            None
        } else {
            let (line, base) = self.old[row];
            let off = least(base + col, usize::MAX as int);
            let k = holding(self.new_start, self.line_first[line], self.line_first[line + 1], off);
            Some((k, least(most(off - self.new_start[k], 0), self.new_cols - 1)))
        }
    }

    /// The id and column a cell has after the reflow; nothing where its row was absorbed or
    /// has aged out of history, before the reflow or by it.
    pub open spec fn moved(self, abs: AbsRow, col: int) -> Option<(AbsRow, int)> {
        if abs.0 < self.evicted || abs.0 - self.evicted > usize::MAX {
            None
        } else {
            match self.place(abs.0 - self.evicted, col) {
                Some((row, col)) => if count_on(self.evicted, row) < self.kept_from {
                    None
                } else {
                    Some((AbsRow(count_on(self.evicted, row)), col))
                },
                None => None,
            }
        }
    }

    /// The id a row has after the reflow.
    pub open spec fn moved_row(self, abs: AbsRow) -> Option<AbsRow> {
        match self.moved(abs, 0) {
            Some((row, _)) => Some(row),
            None => None,
        }
    }
}

impl RowRemap {
    /// The new stream index and column of the cell at an old stream index and column, or
    /// `None` if its row was a trailing blank the reflow absorbed.
    pub fn locate(&self, old_idx: usize, col: usize) -> (r: Option<(usize, usize)>)
        requires
            self@.wf(),
        ensures
            r is Some <==> self@.place(old_idx as int, col as int) is Some,
            r matches Some(p) ==> self@.place(old_idx as int, col as int) == Some(
                (p.0 as int, p.1 as int),
            ),
    {
        if old_idx >= self.frozen_from {
            let new_idx: usize = self.reflowed_len.saturating_add(old_idx - self.frozen_from);
            return Some((new_idx, smaller(col, self.new_cols - 1)));
        }
        if old_idx >= self.old.len() {
            return None;
        }
        let (line, base) = self.old[old_idx];
        assert(self@.old[old_idx as int] == (line as int, base as int));
        if line >= self.lines_len {
            return None;
        }
        let off: usize = base.saturating_add(col);
        assert(0 <= self@.line_first[line as int] < self@.line_first[line + 1]);
        let lo: usize = self.line_first[line];
        let hi: usize = self.line_first[line + 1];
        assert(lo == self@.line_first[line as int] && hi == self@.line_first[line + 1]);
        let mut k: usize = hi - 1;
        while k > lo && self.new_start[k] > off
            invariant
                lo <= k < hi,
                hi <= self.new_start@.len(),
                holding(self@.new_start, lo as int, hi as int, off as int) == holding(
                    self@.new_start,
                    lo as int,
                    k + 1,
                    off as int,
                ),
            decreases k,
        {
            assert(self@.new_start[k as int] == self.new_start@[k as int]);
            k = k - 1;
        }
        assert(self@.new_start[k as int] == self.new_start@[k as int]);
        let start: usize = self.new_start[k];
        let new_col: usize = if off >= start {
            off - start
        } else {
            0
        };
        Some((k, smaller(new_col, self.new_cols - 1)))
    }

    /// Where the cell `(abs, col)` named before the reflow now sits, or `None` if its row
    /// was absorbed as a trailing blank or has since aged out of history. A row the screen let
    /// go of below the cursor gets the id it would have there, past the last one.
    pub fn point(&self, abs: AbsRow, col: usize) -> (r: Option<(AbsRow, usize)>)
        requires
            self@.wf(),
        ensures
            r is Some <==> self@.moved(abs, col as int) is Some,
            r matches Some(p) ==> self@.moved(abs, col as int) == Some((p.0, p.1 as int)),
    {
        if abs.0 < self.evicted || abs.0 - self.evicted > usize::MAX as u64 {
            return None;
        }
        let old_idx: usize = (abs.0 - self.evicted) as usize;
        match self.locate(old_idx, col) {
            Some((new_idx, new_col)) => {
                let id: u64 = self.evicted.saturating_add(new_idx as u64);
                if id < self.kept_from {
                    None
                } else {
                    Some((AbsRow(id), new_col))
                }
            },
            None => None,
        }
    }

    /// The new id of the row `abs` named.
    pub fn row(&self, abs: AbsRow) -> (r: Option<AbsRow>)
        requires
            self@.wf(),
        ensures
            r == self@.moved_row(abs),
    {
        match self.point(abs, 0) {
            Some((row, _)) => Some(row),
            None => None,
        }
    }
}

// ---- the whole reflow as a value -----------------------------------------------------

/// The old stream index where the frozen region begins.
pub open spec fn frozen_at(b: BufferView, frozen_from: int) -> int {
    least(frozen_from, b.stream().len() as int)
}

/// The logical lines that are laid out. With nothing frozen, empty rows below the cursor
/// are screen padding and go.
pub open spec fn reflow_lines(b: BufferView, frozen_from: int) -> Seq<LineView> {
    let f = frozen_at(b, frozen_from);
    let head = b.stream().take(f);
    let lines = logical_lines(head);
    if f == b.stream().len() {
        lines.take(
            kept_count(
                lines,
                lines.len() as int,
                row_origins(head)[b.scrollback.len() + b.cursor.row].0,
            ),
        )
    } else {
        lines
    }
}

/// The rows those lines are laid out in.
pub open spec fn reflow_laid(b: BufferView, cols: int, frozen_from: int) -> Seq<Laid> {
    lay_lines(
        reflow_lines(b, frozen_from),
        cols,
        reflow_lines(b, frozen_from).len() as int,
    )
}

/// The rows of laid-out lines.
pub open spec fn laid_rows(laid: Seq<Laid>) -> Seq<RowView> {
    laid.map_values(|l: Laid| l.row)
}

/// The first columns of laid-out lines.
pub open spec fn laid_starts(laid: Seq<Laid>) -> Seq<int> {
    laid.map_values(|l: Laid| l.start)
}

/// The new stream: the lines laid out, then the frozen rows, clamped one for one.
#[verifier::opaque]
pub open spec fn reflow_stream(b: BufferView, cols: int, frozen_from: int) -> Seq<RowView> {
    laid_rows(reflow_laid(b, cols, frozen_from)) + b.stream().skip(
        frozen_at(b, frozen_from),
    ).map_values(|r: RowView| r.resized(cols))
}

/// The first new row of each line, and the number of them all.
pub open spec fn lines_first(lines: Seq<LineView>, cols: int) -> Seq<int> {
    Seq::new(lines.len() + 1, |j: int| lay_lines(lines, cols, j).len() as int)
}

/// How the rows moved within the stream, before any is pushed out of history.
#[verifier::opaque]
pub open spec fn reflow_map(b: BufferView, cols: int, frozen_from: int) -> RemapView {
    let f = frozen_at(b, frozen_from);
    let lines = reflow_lines(b, frozen_from);
    let laid = reflow_laid(b, cols, frozen_from);
    RemapView {
        evicted: b.evicted,
        kept_from: b.evicted,
        new_cols: cols,
        lines_len: lines.len() as int,
        old: row_origins(b.stream().take(f)),
        line_first: lines_first(lines, cols),
        new_start: laid_starts(laid),
        frozen_from: f,
        reflowed_len: laid.len() as int,
    }
}

/// The cursor's new stream index and column.
pub open spec fn reflow_cursor(b: BufferView, cols: int, frozen_from: int) -> (int, int) {
    match reflow_map(b, cols, frozen_from).place(
        b.scrollback.len() + b.cursor.row,
        b.cursor.col as int,
    ) {
        Some(p) => p,
        None => (most(reflow_stream(b, cols, frozen_from).len() - 1, 0), 0),
    }
}

/// The stream index of the new screen's top row: the bottom rows are live, but the window
/// slides up to the cursor rather than leave it behind.
pub open spec fn reflow_top(b: BufferView, cols: int, rows: int, frozen_from: int) -> int {
    least(
        most(reflow_stream(b, cols, frozen_from).len() - rows, 0),
        reflow_cursor(b, cols, frozen_from).0,
    )
}

/// A stream index as a row of the new screen.
pub open spec fn on_screen(index: int, top: int, rows: int) -> int {
    least(most(index - top, 0), rows - 1)
}

/// The saved cursor carried across.
pub open spec fn reflow_saved(
    b: BufferView,
    cols: int,
    rows: int,
    frozen_from: int,
    saved: Saved,
) -> Saved {
    let top = reflow_top(b, cols, rows, frozen_from);
    Saved {
        cursor: match reflow_map(b, cols, frozen_from).place(
            b.scrollback.len() + saved.cursor.row,
            saved.cursor.col as int,
        ) {
            Some((index, col)) => Cursor {
                row: on_screen(index, top, rows) as usize,
                col: col as usize,
                pending_wrap: saved.cursor.pending_wrap && col == cols - 1,
            },
            None => Cursor {
                row: least(saved.cursor.row as int, rows - 1) as usize,
                col: least(saved.cursor.col as int, cols - 1) as usize,
                pending_wrap: saved.cursor.pending_wrap,
            },
        },
        ..saved
    }
}

/// The buffer rewrapped to `cols` by `rows`.
pub open spec fn reflowed(b: BufferView, cols: usize, rows: usize, frozen_from: int) -> BufferView {
    let stream = reflow_stream(b, cols as int, frozen_from);
    let (index, col) = reflow_cursor(b, cols as int, frozen_from);
    let top = reflow_top(b, cols as int, rows as int, frozen_from);
    let end = least(top + rows, stream.len() as int);
    let split = BufferView {
        cols,
        rows,
        lines: stream.subrange(top, end) + Seq::new(
            (rows - (end - top)) as nat,
            |i: int| RowView::filled(cols as int, Cell::blank()),
        ),
        scrollback: Seq::empty(),
        scrollback_limit: b.scrollback_limit,
        evicted: b.evicted,
        cursor: Cursor {
            row: on_screen(index, top, rows as int) as usize,
            col: least(col, cols - 1) as usize,
            pending_wrap: b.cursor.pending_wrap && least(col, cols - 1) == cols - 1,
        },
        saved: match b.saved {
            Some(s) => Some(reflow_saved(b, cols as int, rows as int, frozen_from, s)),
            None => None,
        },
        scroll_top: 0,
        scroll_bottom: (rows - 1) as usize,
        tabs: grown_tabs(b.tabs, cols as int),
    };
    split.retired(stream.take(top))
}

/// How the rows moved, and which of them the history still holds.
pub open spec fn reflow_remap(
    b: BufferView,
    cols: usize,
    rows: usize,
    frozen_from: int,
) -> RemapView {
    RemapView {
        kept_from: reflowed(b, cols, rows, frozen_from).evicted,
        ..reflow_map(b, cols as int, frozen_from)
    }
}

/// The scrolled view carried across: how far above the new screen its top row now lies.
pub open spec fn reflow_view(
    b: BufferView,
    cols: usize,
    rows: usize,
    view_offset: int,
    frozen_from: int,
) -> int {
    if view_offset <= 0 {
        0
    } else {
        match reflow_map(b, cols as int, frozen_from).place(
            most(b.scrollback.len() - view_offset, 0),
            0,
        ) {
            Some((index, _)) => least(
                most(reflow_top(b, cols as int, rows as int, frozen_from) - index, 0),
                reflowed(b, cols, rows, frozen_from).scrollback.len() as int,
            ),
            None => 0,
        }
    }
}

// ---- unwrapping ----------------------------------------------------------------------

impl LogicalLine {
    /// A line of nothing.
    pub fn new() -> (l: LogicalLine)
        ensures
            l@ == LineView::empty(),
    {
        LogicalLine { cells: Vec::new(), combining: Vec::new() }
    }

    /// Drop trailing default-blank cells, and any marks past them. A cell with a background
    /// or a mark is content, not padding, and stops the trim.
    pub fn trim_trailing_blanks(&mut self)
        requires
            old(self)@.wf(),
        ensures
            final(self)@ == old(self)@.trimmed(),
    {
        let ghost before = self@;
        let mut end: usize = self.cells.len();
        while end > 0 && self.cells[end - 1] == Cell::blank() && !crate::row::any_mark(
            &self.combining,
            end - 1,
        )
            invariant
                end <= self.cells@.len(),
                self@ == before,
                content_len(before, before.cells.len() as int) == content_len(before, end as int),
            decreases end,
        {
            end = end - 1;
        }
        self.cells.truncate(end);
        if self.combining.len() > 0 {
            self.combining = crate::row::kept_marks(&self.combining, end, usize::MAX);
        } else {
            proof {
                lemma_drop_marks(before.marks, end as int, usize::MAX as int, 0);
            }
        }
        assert(self@ =~= before.trimmed());
    }
}

/// What a trim leaves ends in content, and what it drops is blank.
pub proof fn lemma_content_len(line: LineView, end: int)
    requires
        0 <= end <= line.cells.len(),
    ensures
        0 <= content_len(line, end) <= end,
        forall|i: int| content_len(line, end) <= i < end ==> #[trigger] line.cells[i]
            == Cell::blank(),
        content_len(line, end) > 0 ==> line.cells[content_len(line, end) - 1] != Cell::blank()
            || marks_of(line.marks, content_len(line, end) - 1).len() > 0,
    decreases end,
{
    if end > 0 && line.cells[end - 1] == Cell::blank() && marks_of(line.marks, end - 1).len()
        == 0 {
        lemma_content_len(line, end - 1);
    }
}

/// Trimming keeps a line whole.
pub proof fn lemma_trimmed_wf(line: LineView)
    requires
        line.wf(),
    ensures
        line.trimmed().wf(),
        line.trimmed().cells.len() <= line.cells.len(),
        marks_below(line.trimmed().marks, line.trimmed().cells.len() as int),
{
    let end = content_len(line, line.cells.len() as int);
    lemma_content_len(line, line.cells.len() as int);
    lemma_plain_cell(Cell::blank());
    let t = line.trimmed();
    assert forall|i: int| 0 <= i < t.cells.len() implies #[trigger] pair_at(t.cells, i) by {
        assert(pair_at(line.cells, i));
        if i + 1 < line.cells.len() {
            assert(pair_at(line.cells, i + 1));
        }
    }
    lemma_drop_marks(line.marks, end, usize::MAX as int, MAX_SIDE + MAX_LOGICAL_COLS);
}

/// Joining a whole row onto a whole line keeps it whole.
proof fn lemma_joined_wf(line: LineView, rows: Seq<RowView>, k: int, cols: int)
    requires
        line.wf(),
        line.cells.len() < MAX_LOGICAL_COLS,
        0 <= k < rows.len(),
        rows[k].wf(cols),
        1 <= cols <= MAX_SIDE,
    ensures
        line.joined(rows[k], wrap_padding(rows, k)).wf(),
{
    let row = rows[k];
    let padded = wrap_padding(rows, k);
    let j = line.joined(row, padded);
    let all = line.cells + row.cells;
    lemma_paired_append(line.cells, row.cells);
    lemma_plain_cell(Cell::blank());
    assert(all.last() == row.cells.last());
    assert forall|i: int| 0 <= i < j.cells.len() implies #[trigger] pair_at(j.cells, i) by {
        assert(pair_at(all, i));
        if i + 1 < all.len() {
            assert(pair_at(all, i + 1));
        }
    }
    let base = line.cells.len();
    assert forall|i: int| 0 <= i < j.marks.len() implies (#[trigger] j.marks[i]).col < MAX_SIDE
        + MAX_LOGICAL_COLS by {
        if i < line.marks.len() {
            assert(j.marks[i] == line.marks[i]);
        } else {
            assert(row.marks[i - line.marks.len()].col < cols);
        }
    }
}

/// Logical lines that are whole.
pub open spec fn lines_wf(lines: Seq<LineView>) -> bool {
    forall|i: int| 0 <= i < lines.len() ==> (#[trigger] lines[i]).wf()
}

proof fn lemma_lines_view_push(lines: Seq<LogicalLine>, line: LogicalLine)
    ensures
        lines_view(lines.push(line)) == lines_view(lines).push(line@),
{
    assert(lines_view(lines.push(line)) =~= lines_view(lines).push(line@));
}

/// Join soft-wrapped rows into logical lines, recording for each row the line it joined and
/// its first column there.
fn unwrap_rows(rows: &Vec<Row>, cols: usize) -> (r: (Vec<LogicalLine>, Vec<(usize, usize)>))
    requires
        rows_wf(rows_view(rows@), cols as int),
        1 <= cols <= MAX_SIDE,
    ensures
        lines_view(r.0@) == logical_lines(rows_view(rows@)),
        pairs_view(r.1@) == row_origins(rows_view(rows@)),
        lines_wf(lines_view(r.0@)),
{
    let ghost view = rows_view(rows@);
    let mut lines: Vec<LogicalLine> = Vec::new();
    let mut old: Vec<(usize, usize)> = Vec::new();
    let mut cur = LogicalLine::new();
    let mut pending = false;
    let mut k: usize = 0;
    assert(lines_view(lines@) =~= unwrap(view, 0).lines);
    assert(pairs_view(old@) =~= unwrap(view, 0).old);
    while k < rows.len()
        invariant
            k <= rows@.len(),
            view == rows_view(rows@),
            rows_wf(view, cols as int),
            1 <= cols <= MAX_SIDE,
            lines_view(lines@) == unwrap(view, k as int).lines,
            pairs_view(old@) == unwrap(view, k as int).old,
            cur@ == unwrap(view, k as int).cur,
            pending == unwrap(view, k as int).pending,
            cur@.wf(),
            cur@.cells.len() < MAX_LOGICAL_COLS,
            lines_wf(lines_view(lines@)),
        decreases rows.len() - k,
    {
        let ghost u = unwrap(view, k as int);
        let row = &rows[k];
        assert(row@ == view[k as int]);
        assert(view[k as int].wf(cols as int));
        let base: usize = cur.cells.len();
        let ghost old0 = old@;
        old.push((lines.len(), base));
        assert(pairs_view(old@) =~= pairs_view(old0).push(
            (u.lines.len() as int, u.cur.cells.len() as int),
        ));
        let ghost cur0 = cur@;
        let padded = row.wrapped && row.cells[cols - 1] == Cell::blank() && !crate::row::any_mark(
            &row.combining,
            cols - 1,
        ) && k + 1 < rows.len() && rows[k + 1].cells.len() > 0
            && rows[k + 1].cells[0].is_wide_leader();
        proof {
            if k + 1 < rows@.len() {
                assert(view[k + 1].wf(cols as int));
                assert(rows@[k + 1]@ == view[k + 1]);
            }
            assert(padded == wrap_padding(view, k as int));
            lemma_joined_wf(cur0, view, k as int, cols as int);
        }
        cur.cells.extend_from_slice(row.cells.as_slice());
        assert(cur.cells@ =~= cur0.cells + row@.cells);
        if padded {
            let _ = cur.cells.pop();
        }
        let mut m: usize = 0;
        let ghost shift = |m: CombiningMark| CombiningMark { col: (base + m.col) as usize, ch: m.ch };
        while m < row.combining.len()
            invariant
                m <= row.combining@.len(),
                base < MAX_LOGICAL_COLS,
                cols <= MAX_SIDE,
                marks_below(row@.marks, cols as int),
                shift == (|m: CombiningMark|
                    CombiningMark { col: (base + m.col) as usize, ch: m.ch }),
                cur.cells@ == cur0.joined(row@, padded).cells,
                cur.combining@ == cur0.marks + row@.marks.map_values(shift).take(m as int),
            decreases row.combining.len() - m,
        {
            let mark = row.combining[m];
            assert(row@.marks[m as int].col < cols);
            cur.combining.push(CombiningMark { col: base + mark.col, ch: mark.ch });
            m = m + 1;
            assert(cur.combining@ =~= cur0.marks + row@.marks.map_values(shift).take(m as int));
        }
        assert(cur@ =~= cur0.joined(row@, padded));
        let ghost line = cur@;
        if !row.wrapped || cur.cells.len() >= MAX_LOGICAL_COLS {
            cur.trim_trailing_blanks();
            proof {
                lemma_trimmed_wf(line);
                lemma_lines_view_push(lines@, cur);
            }
            lines.push(cur);
            cur = LogicalLine::new();
            pending = false;
            assert(paired(cur@.cells));
        } else {
            pending = true;
        }
        k = k + 1;
    }
    if pending {
        let ghost line = cur@;
        cur.trim_trailing_blanks();
        proof {
            lemma_trimmed_wf(line);
            lemma_lines_view_push(lines@, cur);
        }
        lines.push(cur);
    }
    (lines, old)
}

// ---- laying out ----------------------------------------------------------------------

impl Row {
    /// Refill this row from `cells`, padding to `cols` with blanks, and set the wrap link.
    /// The marks go; the caller adds those the new columns carry.
    pub fn refill(&mut self, cols: usize, cells: &[Cell], wrapped: bool)
        requires
            cells@.len() <= cols,
        ensures
            final(self)@ == padded_row(cells@, cols as int, wrapped),
    {
        self.cells.clear();
        self.cells.extend_from_slice(cells);
        let ghost filled = self.cells@;
        assert(filled =~= cells@);
        self.cells.resize(cols, Cell::blank());
        assert forall|j: int| 0 <= j < filled.len() implies self.cells@[j] == filled[j] by {
            assert(self.cells@.subrange(0, filled.len() as int)[j] == self.cells@[j]);
        }
        self.combining.clear();
        self.wrapped = wrapped;
        assert(self@.cells =~= padded_row(cells@, cols as int, wrapped).cells);
        assert(self@ =~= padded_row(cells@, cols as int, wrapped));
    }
}

/// Take a row from the recycle pool, or make one, and fill it from `cells`.
fn take_row(pool: &mut Vec<Row>, cols: usize, cells: &[Cell], wrapped: bool) -> (row: Row)
    requires
        cells@.len() <= cols,
    ensures
        row@ == padded_row(cells@, cols as int, wrapped),
{
    let mut row = match pool.pop() {
        Some(row) => row,
        None => Row::filled(cols, Cell::blank()),
    };
    row.refill(cols, cells, wrapped);
    row
}

/// The row at a column of a line takes at least one cell and no more than fit, and two
/// columns are room for any character.
pub proof fn lemma_chunk(cells: Seq<Cell>, cols: int, i: int)
    requires
        0 <= i < cells.len(),
        1 <= cols,
        paired(cells),
    ensures
        i < chunk_end(cells, cols, i) <= cells.len(),
        chunk_end(cells, cols, i) <= i + cols,
        chunk_end(cells, cols, i) <= chunk_next(cells, cols, i) <= cells.len(),
        cols >= 2 ==> !chunk_clips(cells, cols, i),
{
    assert(pair_at(cells, i));
    if i + 1 < cells.len() {
        assert(pair_at(cells, i + 1));
    }
}

/// A laid-out row is whole.
proof fn lemma_chunk_row_wf(line: LineView, cols: int, i: int)
    requires
        line.wf(),
        1 <= cols <= MAX_SIDE,
        0 <= i < line.cells.len(),
        i == 0 || !line.cells[i].spacer(),
    ensures
        chunk_row(line, cols, i).wf(cols),
        chunk_next(line.cells, cols, i) < line.cells.len() ==> !line.cells[chunk_next(
            line.cells,
            cols,
            i,
        )].spacer(),
{
    let cells = line.cells;
    let end = chunk_end(cells, cols, i);
    let next = chunk_next(cells, cols, i);
    let row = chunk_row(line, cols, i);
    lemma_chunk(cells, cols, i);
    lemma_plain_cell(Cell::blank());
    assert(pair_at(cells, i));
    assert(pair_at(cells, end - 1));
    if end < cells.len() {
        assert(pair_at(cells, end));
    }
    if next < cells.len() {
        assert(pair_at(cells, next));
        if next > 0 {
            assert(pair_at(cells, next - 1));
        }
    }
    if chunk_clips(cells, cols, i) {
        lemma_wide_bits(cells[i].attrs);
        lemma_wide_bits(cells[i].attrs.without(Attrs(128)));
        assert forall|j: int| 0 <= j < row.cells.len() implies #[trigger] pair_at(row.cells, j) by {}
    } else {
        assert forall|j: int| 0 <= j < row.cells.len() implies #[trigger] pair_at(row.cells, j) by {
            if j < end - i {
                assert(row.cells[j] == cells[i + j]);
                assert(pair_at(cells, i + j));
                if i + j + 1 < end {
                    assert(row.cells[j + 1] == cells[i + j + 1]);
                } else {
                    assert(!cells[i + j].leader());
                }
                if j > 0 {
                    assert(row.cells[j - 1] == cells[i + j - 1]);
                }
            }
        }
    }
    lemma_window_marks(line.marks, i, end);
    assert forall|j: int| 0 <= j < row.marks.len() implies (#[trigger] row.marks[j]).col < cols by {
        assert(row.marks[j].col < end - i);
    }
}

/// The marks of a window are inside it.
pub proof fn lemma_window_marks(marks: Seq<CombiningMark>, lo: int, hi: int)
    requires
        0 <= lo <= hi,
    ensures
        forall|j: int|
            0 <= j < window_marks(marks, lo, hi).len() ==> (#[trigger] window_marks(
                marks,
                lo,
                hi,
            )[j]).col < hi - lo,
    decreases marks.len(),
{
    if marks.len() > 0 {
        lemma_window_marks(marks.drop_last(), lo, hi);
        let rest = window_marks(marks.drop_last(), lo, hi);
        let all = window_marks(marks, lo, hi);
        assert forall|j: int| 0 <= j < all.len() implies (#[trigger] all[j]).col < hi - lo by {
            if j < rest.len() {
                assert(all[j] == rest[j]);
            }
        }
    }
}

/// Laid-out rows that are whole.
pub open spec fn laid_wf(laid: Seq<Laid>, cols: int) -> bool {
    forall|i: int| 0 <= i < laid.len() ==> (#[trigger] laid[i]).row.wf(cols)
}

/// Every row a line is laid out in is whole.
pub proof fn lemma_lay_from_wf(line: LineView, cols: int, i: int)
    requires
        line.wf(),
        1 <= cols <= MAX_SIDE,
        0 <= i,
        i == 0 || i >= line.cells.len() || !line.cells[i].spacer(),
    ensures
        laid_wf(lay_from(line, cols, i), cols),
        i < line.cells.len() ==> lay_from(line, cols, i).len() > 0,
    decreases line.cells.len() - i,
{
    if i < line.cells.len() {
        lemma_chunk(line.cells, cols, i);
        lemma_chunk_row_wf(line, cols, i);
        lemma_lay_from_wf(line, cols, chunk_next(line.cells, cols, i));
    }
}

/// Every row lines are laid out in is whole, and every line has one.
pub proof fn lemma_lay_lines_wf(lines: Seq<LineView>, cols: int, k: int)
    requires
        lines_wf(lines),
        1 <= cols <= MAX_SIDE,
        0 <= k <= lines.len(),
    ensures
        laid_wf(lay_lines(lines, cols, k), cols),
        k > 0 ==> lay_lines(lines, cols, k - 1).len() < lay_lines(lines, cols, k).len(),
    decreases k,
{
    if k > 0 {
        lemma_lay_lines_wf(lines, cols, k - 1);
        assert(lines[k - 1].wf());
        lemma_lay_from_wf(lines[k - 1], cols, 0);
        lemma_plain_cell(Cell::blank());
        lemma_filled_wf(cols, Cell::blank());
    }
}

/// Later lines begin at later rows.
proof fn lemma_lay_lines_monotone(lines: Seq<LineView>, cols: int, j: int, k: int)
    requires
        lines_wf(lines),
        1 <= cols <= MAX_SIDE,
        0 <= j <= k <= lines.len(),
    ensures
        lay_lines(lines, cols, j).len() <= lay_lines(lines, cols, k).len(),
    decreases k,
{
    if j < k {
        lemma_lay_lines_monotone(lines, cols, j, k - 1);
        lemma_lay_lines_wf(lines, cols, k);
    }
}

/// The remap a reflow builds is well formed.
pub proof fn lemma_reflow_map_wf(b: BufferView, cols: int, frozen_from: int)
    requires
        lines_wf(reflow_lines(b, frozen_from)),
        1 <= cols <= MAX_SIDE,
    ensures
        reflow_map(b, cols, frozen_from).wf(),
{
    reveal(reflow_map);
    let lines = reflow_lines(b, frozen_from);
    let m = reflow_map(b, cols, frozen_from);
    assert forall|j: int| 0 <= j < m.lines_len implies 0 <= #[trigger] m.line_first[j]
        < m.line_first[j + 1] && m.line_first[j + 1] <= m.new_start.len() by {
        lemma_lay_lines_wf(lines, cols, j + 1);
        lemma_lay_lines_monotone(lines, cols, j + 1, lines.len() as int);
    }
}

fn window(row: &mut Row, marks: &Vec<CombiningMark>, lo: usize, hi: usize)
    requires
        old(row)@.marks.len() == 0,
    ensures
        final(row)@ == (RowView {
            marks: window_marks(marks@, lo as int, hi as int),
            ..old(row)@
        }),
{
    let mut m: usize = 0;
    assert(marks@.take(0) =~= Seq::empty());
    assert(row.combining@ =~= Seq::empty());
    while m < marks.len()
        invariant
            m <= marks@.len(),
            row@ == (RowView { marks: row.combining@, ..old(row)@ }),
            row.combining@ == window_marks(marks@.take(m as int), lo as int, hi as int),
        decreases marks.len() - m,
    {
        let mark = marks[m];
        assert(marks@.take(m + 1).drop_last() =~= marks@.take(m as int));
        if mark.col >= lo && mark.col < hi {
            row.combining.push(CombiningMark { col: mark.col - lo, ch: mark.ch });
        }
        m = m + 1;
    }
    assert(marks@.take(m as int) =~= marks@);
}

/// Lay one line out in rows of `cols`, appending the rows and the columns they start at.
fn lay_one(
    line: &LogicalLine,
    cols: usize,
    pool: &mut Vec<Row>,
    rows: &mut Vec<Row>,
    starts: &mut Vec<usize>,
)
    requires
        line@.wf(),
        1 <= cols <= MAX_SIDE,
    ensures
        rows_view(final(rows)@) == rows_view(old(rows)@) + laid_rows(lay_line(line@, cols as int)),
        ints_view(final(starts)@) == ints_view(old(starts)@) + laid_starts(
            lay_line(line@, cols as int),
        ),
{
    let ghost rows0 = rows_view(rows@);
    let ghost starts0 = ints_view(starts@);
    let ghost laid = lay_line(line@, cols as int);
    let n = line.cells.len();
    if n == 0 {
        let row = Row::filled(cols, Cell::blank());
        starts.push(0);
        rows.push(row);
        assert(rows_view(rows@) =~= rows0 + laid_rows(laid));
        assert(ints_view(starts@) =~= starts0 + laid_starts(laid));
        return;
    }
    let mut i: usize = 0;
    assert(rows0 + laid_rows(laid) =~= rows_view(rows@) + laid_rows(
        lay_from(line@, cols as int, 0),
    ));
    while i < n
        invariant
            i <= n,
            n == line.cells@.len(),
            line@.wf(),
            1 <= cols <= MAX_SIDE,
            rows_view(rows@) + laid_rows(lay_from(line@, cols as int, i as int)) == rows0
                + laid_rows(laid),
            ints_view(starts@) + laid_starts(lay_from(line@, cols as int, i as int)) == starts0
                + laid_starts(laid),
        decreases n - i,
    {
        proof {
            lemma_chunk(line@.cells, cols as int, i as int);
        }
        let mut end: usize = if n - i > cols {
            i + cols
        } else {
            n
        };
        if end < n && line.cells[end - 1].is_wide_leader() {
            end = end - 1;
        }
        if end <= i {
            end = i + 1;
        }
        let clip = line.cells[i].is_wide_leader() && end == i + 1;
        let next: usize = if clip && i + 1 < n && line.cells[i + 1].is_wide_spacer() {
            i + 2
        } else {
            end
        };
        let wrapped = next < n;
        let mut row = if clip {
            let mut clipped = line.cells[i];
            clipped.attrs.remove(Attrs::wide_leader());
            let mut one: Vec<Cell> = Vec::new();
            one.push(clipped);
            assert(one@ =~= seq![clipped]);
            take_row(pool, cols, one.as_slice(), wrapped)
        } else {
            take_row(
                pool,
                cols,
                vstd::slice::slice_subrange(line.cells.as_slice(), i, end),
                wrapped,
            )
        };
        window(&mut row, &line.combining, i, end);
        assert(row@ =~= chunk_row(line@, cols as int, i as int));
        let ghost rest = lay_from(line@, cols as int, next as int);
        let ghost here = Laid { start: i as int, row: row@ };
        let ghost rows1 = rows_view(rows@);
        let ghost starts1 = ints_view(starts@);
        assert(lay_from(line@, cols as int, i as int) == seq![here] + rest);
        starts.push(i);
        let ghost pushed = row;
        let ghost vec0 = rows@;
        rows.push(row);
        proof {
            assert(rows_view(rows@) =~= rows1.push(pushed@));
            assert(ints_view(starts@) =~= starts1.push(i as int));
            assert(rows1 + laid_rows(seq![here] + rest) =~= rows1.push(pushed@) + laid_rows(rest));
            assert(starts1 + laid_starts(seq![here] + rest) =~= starts1.push(i as int)
                + laid_starts(rest));
        }
        i = next;
    }
    assert(lay_from(line@, cols as int, i as int) =~= Seq::empty());
    assert(rows_view(rows@) =~= rows_view(rows@) + laid_rows(
        lay_from(line@, cols as int, i as int),
    ));
    assert(ints_view(starts@) =~= ints_view(starts@) + laid_starts(
        lay_from(line@, cols as int, i as int),
    ));
}

/// Lay every line out, noting the first row of each and the columns the rows start at.
fn lay_out(lines: &Vec<LogicalLine>, cols: usize, pool: &mut Vec<Row>) -> (r: (
    Vec<Row>,
    Vec<usize>,
    Vec<usize>,
))
    requires
        lines_wf(lines_view(lines@)),
        1 <= cols <= MAX_SIDE,
    ensures
        ({
            let view = lines_view(lines@);
            let laid = lay_lines(view, cols as int, view.len() as int);
            &&& rows_view(r.0@) == laid_rows(laid)
            &&& ints_view(r.1@) == lines_first(view, cols as int)
            &&& ints_view(r.2@) == laid_starts(laid)
        }),
{
    let ghost view = lines_view(lines@);
    let mut rows: Vec<Row> = Vec::new();
    let mut first: Vec<usize> = Vec::new();
    let mut starts: Vec<usize> = Vec::new();
    let mut k: usize = 0;
    assert(rows_view(rows@) =~= laid_rows(lay_lines(view, cols as int, 0)));
    assert(ints_view(starts@) =~= laid_starts(lay_lines(view, cols as int, 0)));
    while k < lines.len()
        invariant
            k <= lines@.len(),
            view == lines_view(lines@),
            lines_wf(view),
            1 <= cols <= MAX_SIDE,
            rows_view(rows@) == laid_rows(lay_lines(view, cols as int, k as int)),
            ints_view(starts@) == laid_starts(lay_lines(view, cols as int, k as int)),
            first@.len() == k,
            forall|j: int|
                0 <= j < k ==> #[trigger] first@[j] == lay_lines(view, cols as int, j).len(),
        decreases lines.len() - k,
    {
        let ghost laid = lay_lines(view, cols as int, k as int);
        let ghost more = lay_line(view[k as int], cols as int);
        assert(rows_view(rows@).len() == laid.len());
        first.push(rows.len());
        assert(view[k as int].wf());
        assert(lines@[k as int]@ == view[k as int]);
        lay_one(&lines[k], cols, pool, &mut rows, &mut starts);
        k = k + 1;
        assert(rows_view(rows@) =~= laid_rows(laid + more));
        assert(ints_view(starts@) =~= laid_starts(laid + more));
    }
    assert(rows_view(rows@).len() == rows@.len());
    first.push(rows.len());
    assert(ints_view(first@) =~= lines_first(view, cols as int));
    (rows, first, starts)
}

// ---- the reflow ----------------------------------------------------------------------

proof fn lemma_place_bounds(m: RemapView, row: int, col: int)
    requires
        m.wf(),
        0 <= row,
        0 <= col,
        m.reflowed_len >= 0,
        forall|i: int| 0 <= i < m.old.len() ==> 0 <= (#[trigger] m.old[i]).0,
    ensures
        m.place(row, col) matches Some(p) ==> 0 <= p.0 <= usize::MAX && 0 <= p.1 < m.new_cols
            || p.0 >= 0 && row < m.frozen_from && 0 <= p.1 < m.new_cols,
{
    if row < m.frozen_from && row < m.old.len() && m.old[row].0 < m.lines_len {
        let (line, base) = m.old[row];
        let off = least(base + col, usize::MAX as int);
        assert(0 <= m.line_first[line] < m.line_first[line + 1]);
        lemma_holding(m.new_start, m.line_first[line], m.line_first[line + 1], off);
    }
}

/// The row that holds a column is one of the line's.
pub proof fn lemma_holding(starts: Seq<int>, lo: int, hi: int, off: int)
    requires
        lo < hi,
    ensures
        lo <= holding(starts, lo, hi, off) < hi,
        holding(starts, lo, hi, off) == lo || starts[holding(starts, lo, hi, off)] <= off,
        forall|k: int| holding(starts, lo, hi, off) < k < hi ==> #[trigger] starts[k] > off,
    decreases hi - lo,
{
    if hi - 1 <= lo || starts[hi - 1] <= off {
    } else {
        lemma_holding(starts, lo, hi - 1, off);
    }
}

/// Unwrapping whole rows gives whole lines, and says of each row which line it joined.
pub proof fn lemma_unwrap_wf(rows: Seq<RowView>, k: int, cols: int)
    requires
        rows_wf(rows, cols),
        1 <= cols <= MAX_SIDE,
        0 <= k <= rows.len(),
    ensures
        lines_wf(unwrap(rows, k).lines),
        unwrap(rows, k).cur.wf(),
        unwrap(rows, k).cur.cells.len() < MAX_LOGICAL_COLS,
        unwrap(rows, k).old.len() == k,
        forall|i: int|
            0 <= i < k ==> 0 <= (#[trigger] unwrap(rows, k).old[i]).0 <= unwrap(
                rows,
                k,
            ).lines.len() && 0 <= unwrap(rows, k).old[i].1 < MAX_LOGICAL_COLS,
    decreases k,
{
    if k > 0 {
        lemma_unwrap_wf(rows, k - 1, cols);
        let u = unwrap(rows, k - 1);
        assert(rows[k - 1].wf(cols));
        lemma_joined_wf(u.cur, rows, k - 1, cols);
        lemma_trimmed_wf(u.cur.joined(rows[k - 1], wrap_padding(rows, k - 1)));
    }
}

/// The lines a reflow lays out are whole.
pub proof fn lemma_reflow_lines_wf(b: BufferView, frozen_from: int)
    requires
        b.wf(),
        0 <= frozen_from,
    ensures
        lines_wf(reflow_lines(b, frozen_from)),
        row_origins(b.stream().take(frozen_at(b, frozen_from))).len() == frozen_at(b, frozen_from),
{
    let f = frozen_at(b, frozen_from);
    let head = b.stream().take(f);
    lemma_stream_wf(b);
    assert(rows_wf(head, b.cols as int)) by {
        assert forall|i: int| 0 <= i < head.len() implies (#[trigger] head[i]).wf(
            b.cols as int,
        ) by {
            assert(head[i] == b.stream()[i]);
        }
    }
    lemma_unwrap_wf(head, f, b.cols as int);
    let u = unwrap(head, f);
    lemma_trimmed_wf(u.cur);
    let lines = logical_lines(head);
    assert(lines_wf(lines));
    if f == b.stream().len() {
        lemma_kept_count(
            lines,
            lines.len() as int,
            row_origins(head)[b.scrollback.len() + b.cursor.row].0,
        );
    }
}

/// The rows of a well-formed buffer's stream are whole.
pub proof fn lemma_stream_wf(b: BufferView)
    requires
        b.wf(),
    ensures
        rows_wf(b.stream(), b.cols as int),
{
    assert forall|i: int| 0 <= i < b.stream().len() implies (#[trigger] b.stream()[i]).wf(
        b.cols as int,
    ) by {
        if i < b.scrollback.len() {
            assert(b.stream()[i] == b.scrollback[i]);
        } else {
            assert(b.stream()[i] == b.lines[i - b.scrollback.len()]);
        }
    }
}

/// Only empty lines are dropped, and none up to `floor`.
pub proof fn lemma_kept_count(lines: Seq<LineView>, keep: int, floor: int)
    requires
        0 <= keep <= lines.len(),
    ensures
        0 <= kept_count(lines, keep, floor) <= keep,
        floor < keep ==> floor < kept_count(lines, keep, floor),
        forall|l: int|
            kept_count(lines, keep, floor) <= l < keep ==> (#[trigger] lines[l]).cells.len() == 0,
    decreases keep,
{
    if keep > floor + 1 && keep > 0 && lines[keep - 1].cells.len() == 0 {
        lemma_kept_count(lines, keep - 1, floor);
    }
}

/// The rows of the new stream are whole.
pub proof fn lemma_reflow_stream_wf(b: BufferView, cols: int, frozen_from: int)
    requires
        b.wf(),
        0 <= frozen_from,
        1 <= cols <= MAX_SIDE,
    ensures
        rows_wf(reflow_stream(b, cols, frozen_from), cols),
{
    reveal(reflow_stream);
    lemma_reflow_lines_wf(b, frozen_from);
    let lines = reflow_lines(b, frozen_from);
    lemma_lay_lines_wf(lines, cols, lines.len() as int);
    lemma_stream_wf(b);
    let laid = reflow_laid(b, cols, frozen_from);
    let f = frozen_at(b, frozen_from);
    let stream = reflow_stream(b, cols, frozen_from);
    assert forall|i: int| 0 <= i < stream.len() implies (#[trigger] stream[i]).wf(cols) by {
        if i < laid.len() {
            assert(stream[i] == laid[i].row);
        } else {
            let r = b.stream()[f + (i - laid.len())];
            assert(r.wf(b.cols as int));
            assert(b.stream().skip(f)[i - laid.len()] == r);
            assert(stream[i] == r.resized(cols));
            lemma_resized_wf(r, b.cols as int, cols);
        }
    }
}

/// A reflow keeps a buffer well formed.
pub proof fn lemma_reflowed_wf(b: BufferView, cols: usize, rows: usize, frozen_from: int)
    requires
        b.wf(),
        0 <= frozen_from,
        1 <= cols <= MAX_SIDE,
        1 <= rows,
        rows + b.scrollback_limit <= MAX_SIDE,
    ensures
        reflowed(b, cols, rows, frozen_from).wf(),
        reflow_map(b, cols as int, frozen_from).wf(),
        0 <= reflow_top(b, cols as int, rows as int, frozen_from) <= reflow_stream(
            b,
            cols as int,
            frozen_from,
        ).len(),
        reflow_cursor(b, cols as int, frozen_from).0 >= 0,
        0 <= reflow_cursor(b, cols as int, frozen_from).1 < cols,
{
    lemma_reflow_lines_wf(b, frozen_from);
    lemma_reflow_map_wf(b, cols as int, frozen_from);
    lemma_reflow_stream_wf(b, cols as int, frozen_from);
    let map = reflow_map(b, cols as int, frozen_from);
    let f = frozen_at(b, frozen_from);
    lemma_stream_wf(b);
    let head = b.stream().take(f);
    assert(rows_wf(head, b.cols as int)) by {
        assert forall|i: int| 0 <= i < head.len() implies (#[trigger] head[i]).wf(
            b.cols as int,
        ) by {
            assert(head[i] == b.stream()[i]);
        }
    }
    lemma_unwrap_wf(head, f, b.cols as int);
    reveal(reflow_map);
    lemma_place_bounds(map, b.scrollback.len() + b.cursor.row, b.cursor.col as int);
    let stream = reflow_stream(b, cols as int, frozen_from);
    let top = reflow_top(b, cols as int, rows as int, frozen_from);
    let end = least(top + rows, stream.len() as int);
    let o = reflowed(b, cols, rows, frozen_from);
    lemma_plain_cell(Cell::blank());
    lemma_filled_wf(cols as int, Cell::blank());
    assert forall|i: int| 0 <= i < o.lines.len() implies (#[trigger] o.lines[i]).wf(
        cols as int,
    ) by {
        if i < end - top {
            assert(o.lines[i] == stream[top + i]);
        }
    }
    let all = Seq::<RowView>::empty() + stream.take(top);
    assert(all =~= stream.take(top));
    assert forall|i: int| 0 <= i < o.scrollback.len() implies (#[trigger] o.scrollback[i]).wf(
        cols as int,
    ) by {
        let j = if all.len() > b.scrollback_limit {
            i + all.len() - b.scrollback_limit
        } else {
            i
        };
        assert(o.scrollback[i] == stream[j]);
    }
    if let Some(s) = b.saved {
        lemma_place_bounds(map, b.scrollback.len() + s.cursor.row, s.cursor.col as int);
    }
}

/// Drop the empty lines past `floor`: rows below the cursor that held nothing.
fn drop_trailing_empty(lines: &mut Vec<LogicalLine>, floor: usize)
    ensures
        lines_view(final(lines)@) == lines_view(old(lines)@).take(
            kept_count(
                lines_view(old(lines)@),
                lines_view(old(lines)@).len() as int,
                floor as int,
            ),
        ),
{
    let ghost full = lines_view(lines@);
    let mut keep: usize = lines.len();
    assert(full.len() == lines@.len());
    while keep > 0 && keep - 1 > floor && lines[keep - 1].cells.len() == 0
        invariant
            keep <= lines@.len(),
            full == lines_view(lines@),
            kept_count(full, full.len() as int, floor as int) == kept_count(
                full,
                keep as int,
                floor as int,
            ),
        decreases keep,
    {
        assert(full[keep - 1] == lines@[keep - 1]@);
        keep = keep - 1;
    }
    assert(keep > 0 ==> full[keep - 1] == lines@[keep - 1]@);
    lines.truncate(keep);
    assert(lines_view(lines@) =~= full.take(keep as int));
}

/// Clamp rows to the new width one for one, and put them behind `rows`.
fn clamp_rows(rows: &mut Vec<Row>, frozen: Vec<Row>, old_cols: usize, cols: usize)
    requires
        rows_wf(rows_view(frozen@), old_cols as int),
        1 <= cols,
    ensures
        rows_view(final(rows)@) == rows_view(old(rows)@) + rows_view(frozen@).map_values(
            |r: RowView| r.resized(cols as int),
        ),
{
    let mut frozen = frozen;
    let ghost laid = rows_view(rows@);
    let ghost frozen0 = rows_view(frozen@);
    let ghost clamped = frozen0.map_values(|r: RowView| r.resized(cols as int));
    let mut back: Vec<Row> = Vec::new();
    assert(frozen0.len() == frozen@.len());
    assert(rows_view(frozen@) =~= frozen0.take(frozen@.len() as int));
    while frozen.len() > 0
        invariant
            frozen@.len() <= frozen0.len(),
            1 <= cols,
            rows_wf(frozen0, old_cols as int),
            clamped == frozen0.map_values(|r: RowView| r.resized(cols as int)),
            rows_view(frozen@) == frozen0.take(frozen@.len() as int),
            back@.len() == frozen0.len() - frozen@.len(),
            forall|j: int|
                0 <= j < back@.len() ==> (#[trigger] back@[j])@ == clamped[frozen0.len() - 1 - j],
        decreases frozen.len(),
    {
        let ghost vec0 = frozen@;
        let ghost at = frozen@.len() - 1;
        match frozen.pop() {
            Some(mut row) => {
                assert(rows_view(vec0)[at] == row@);
                assert(row@ == frozen0[at]);
                assert(frozen0[at].wf(old_cols as int));
                row.resize_cols(cols);
                assert(row@ == clamped[at]);
                back.push(row);
                assert(rows_view(frozen@) =~= frozen0.take(at));
            },
            None => {},
        }
    }
    assert(rows_view(rows@) =~= laid + clamped.take(0));
    while back.len() > 0
        invariant
            back@.len() <= clamped.len(),
            forall|j: int|
                0 <= j < back@.len() ==> (#[trigger] back@[j])@ == clamped[clamped.len() - 1 - j],
            rows_view(rows@) == laid + clamped.take(clamped.len() - back@.len()),
        decreases back.len(),
    {
        let ghost n = back@.len() as int;
        match back.pop() {
            Some(row) => {
                let ghost vec0 = rows@;
                let ghost moved = row@;
                assert(moved == clamped[clamped.len() - n]);
                rows.push(row);
                assert(rows_view(rows@) =~= rows_view(vec0).push(moved));
                assert(laid + clamped.take(clamped.len() - n + 1) =~= (laid + clamped.take(
                    clamped.len() - n,
                )).push(moved));
            },
            None => {},
        }
    }
    assert(clamped.take(clamped.len() as int) =~= clamped);
}

/// The newest `limit` of the rows, and how many older ones were dropped.
fn keep_newest(rows: Vec<Row>, limit: usize) -> (r: (VecDeque<Row>, usize))
    ensures
        rows_view(r.0@) == keep_last(rows_view(rows@), limit as int),
        r.1 == rows@.len() - r.0@.len(),
{
    let mut rows = rows;
    let mut ring: VecDeque<Row> = VecDeque::new();
    let ghost past = rows_view(rows@);
    assert(past.len() == rows@.len());
    assert(rows_view(ring@) =~= past.skip(past.len() as int));
    assert(past.take(past.len() as int) =~= past);
    while rows.len() > 0 && ring.len() < limit
        invariant
            rows@.len() + ring@.len() == past.len(),
            rows_view(rows@) == past.take(rows@.len() as int),
            rows_view(ring@) == past.skip(rows@.len() as int),
            ring@.len() <= limit,
        decreases rows.len(),
    {
        let ghost vec0 = rows@;
        let ghost ring0 = ring@;
        let ghost n = rows@.len() - 1;
        match rows.pop() {
            Some(row) => {
                assert(rows_view(vec0)[n] == row@);
                let ghost moved = row@;
                ring.push_front(row);
                assert(rows_view(ring@) =~= seq![moved] + rows_view(ring0));
                assert(past.skip(n) =~= seq![past[n]] + past.skip(n + 1));
                assert(rows_view(rows@) =~= past.take(n));
            },
            None => {},
        }
    }
    let dropped = rows.len();
    assert(rows_view(ring@) =~= keep_last(past, limit as int));
    (ring, dropped)
}

/// The rows cut to `count`, or padded with blank rows to as many.
fn fit_rows(rows: Vec<Row>, count: usize, cols: usize, pool: &mut Vec<Row>) -> (r: VecDeque<Row>)
    ensures
        ({
            let have = least(rows@.len() as int, count as int);
            rows_view(r@) == rows_view(rows@).take(have) + Seq::new(
                (count - have) as nat,
                |i: int| RowView::filled(cols as int, Cell::blank()),
            )
        }),
{
    let ghost before = rows_view(rows@);
    let mut rows = rows;
    rows.truncate(count);
    let ghost have = least(before.len() as int, count as int);
    assert(rows_view(rows@) =~= before.take(have));
    let ghost shown = before.take(have);
    let ghost blank = RowView::filled(cols as int, Cell::blank());
    let (mut lines, _) = keep_newest(rows, count);
    assert(rows_view(lines@) =~= shown);
    assert(rows_view(lines@).len() == lines@.len());
    assert(shown =~= shown + Seq::new(0, |i: int| blank));
    while lines.len() < count
        invariant
            have <= lines@.len() <= count,
            have == shown.len(),
            blank == RowView::filled(cols as int, Cell::blank()),
            rows_view(lines@) == shown + Seq::new((lines@.len() - have) as nat, |i: int| blank),
        decreases count - lines.len(),
    {
        let ghost lines0 = lines@;
        let none: Vec<Cell> = Vec::new();
        let row = take_row(pool, cols, none.as_slice(), false);
        assert(row@ =~= blank);
        let ghost moved = row@;
        lines.push_back(row);
        assert(rows_view(lines@) =~= rows_view(lines0).push(moved));
        assert(rows_view(lines@) =~= shown + Seq::new(
            (lines@.len() - have) as nat,
            |i: int| blank,
        ));
    }
    assert(Seq::new((count - have) as nat, |i: int| blank) =~= Seq::new(
        (count - have) as nat,
        |i: int| RowView::filled(cols as int, Cell::blank()),
    ));
    lines
}

/// A stream index as a row of the screen whose top row is at `top`.
fn screen_row(index: usize, top: usize, rows: usize) -> (r: usize)
    requires
        1 <= rows,
    ensures
        r == on_screen(index as int, top as int, rows as int),
{
    if index > top {
        smaller(index - top, rows - 1)
    } else {
        0
    }
}

/// A saved cursor carried across the remap.
fn carry_saved(remap: &RowRemap, s: Saved, index: usize, top: usize, cols: usize, rows: usize) -> (r:
    Saved)
    requires
        remap@.wf(),
        1 <= rows,
        1 <= cols,
    ensures
        r == (Saved {
            cursor: match remap@.place(index as int, s.cursor.col as int) {
                Some((i, col)) => Cursor {
                    row: on_screen(i, top as int, rows as int) as usize,
                    col: col as usize,
                    pending_wrap: s.cursor.pending_wrap && col == cols - 1,
                },
                None => Cursor {
                    row: least(s.cursor.row as int, rows - 1) as usize,
                    col: least(s.cursor.col as int, cols - 1) as usize,
                    pending_wrap: s.cursor.pending_wrap,
                },
            },
            ..s
        }),
{
    let mut saved = s;
    match remap.locate(index, s.cursor.col) {
        Some((idx, col)) => {
            saved.cursor.row = screen_row(idx, top, rows);
            saved.cursor.col = col;
            saved.cursor.pending_wrap = s.cursor.pending_wrap && col == cols - 1;
        },
        None => {
            saved.cursor.row = smaller(s.cursor.row, rows - 1);
            saved.cursor.col = smaller(s.cursor.col, cols - 1);
        },
    }
    saved
}

/// Rewrap rows that were taken out of the stream: the new stream, and how the rows moved.
fn rewrap(
    stream: Vec<Row>,
    cursor_idx: usize,
    old_cols: usize,
    new_cols: usize,
    frozen_from: usize,
    evicted: u64,
    pool: &mut Vec<Row>,
    Ghost(b): Ghost<BufferView>,
) -> (r: (Vec<Row>, RowRemap))
    requires
        b.wf(),
        rows_view(stream@) == b.stream(),
        old_cols == b.cols,
        evicted == b.evicted,
        cursor_idx == b.scrollback.len() + b.cursor.row,
        1 <= new_cols <= MAX_SIDE,
    ensures
        rows_view(r.0@) == reflow_stream(b, new_cols as int, frozen_from as int),
        r.1@ == reflow_map(b, new_cols as int, frozen_from as int),
{
    let ghost fz = frozen_from as int;
    let ghost nc = new_cols as int;
    let mut head = stream;
    proof {
        reveal(reflow_map);
        reveal(reflow_stream);
        lemma_reflow_lines_wf(b, fz);
        lemma_stream_wf(b);
        assert(rows_view(head@).len() == head@.len());
    }
    let frozen_from: usize = smaller(frozen_from, head.len());
    let frozen = head.split_off(frozen_from);
    assert(rows_view(head@) =~= b.stream().take(frozen_from as int));
    assert(rows_view(frozen@) =~= b.stream().skip(frozen_from as int));
    assert(rows_wf(rows_view(head@), old_cols as int)) by {
        assert forall|i: int| 0 <= i < head@.len() implies (#[trigger] rows_view(head@)[i]).wf(
            old_cols as int,
        ) by {
            assert(rows_view(head@)[i] == b.stream()[i]);
        }
    }
    assert(rows_wf(rows_view(frozen@), old_cols as int)) by {
        assert forall|i: int| 0 <= i < frozen@.len() implies (#[trigger] rows_view(frozen@)[i]).wf(
            old_cols as int,
        ) by {
            assert(rows_view(frozen@)[i] == b.stream()[frozen_from + i]);
        }
    }
    let (mut lines, old) = unwrap_rows(&head, old_cols);
    assert(pairs_view(old@).len() == old@.len());
    if frozen.len() == 0 {
        assert(rows_view(frozen@).len() == 0);
        assert(pairs_view(old@)[cursor_idx as int].0 == old@[cursor_idx as int].0);
        drop_trailing_empty(&mut lines, old[cursor_idx].0);
    } else {
        assert(rows_view(frozen@).len() == frozen@.len());
    }
    assert(lines_view(lines@) == reflow_lines(b, fz));
    pool.append(&mut head);
    let (mut rows, line_first, new_start) = lay_out(&lines, new_cols, pool);
    let reflowed_len = rows.len();
    assert(rows_view(rows@).len() == rows@.len());
    clamp_rows(&mut rows, frozen, old_cols, new_cols);
    let remap = RowRemap {
        evicted,
        kept_from: evicted,
        new_cols,
        lines_len: lines.len(),
        old,
        line_first,
        new_start,
        frozen_from,
        reflowed_len,
    };
    assert(lines_view(lines@).len() == lines@.len());
    assert(remap@ =~= reflow_map(b, nc, fz));
    (rows, remap)
}

/// Move the rows out of a ring, front first, behind the others.
fn drain_rows(ring: &mut VecDeque<Row>, rows: &mut Vec<Row>)
    ensures
        rows_view(final(rows)@) == rows_view(old(rows)@) + rows_view(old(ring)@),
        rows_view(final(ring)@) == Seq::<RowView>::empty(),
{
    let ghost all = rows_view(ring@);
    let ghost first = rows_view(rows@);
    let ghost mut n: int = 0;
    assert(all.skip(0) =~= all);
    assert(first + all.take(0) =~= first);
    while ring.len() > 0
        invariant
            0 <= n <= all.len(),
            rows_view(ring@) == all.skip(n),
            rows_view(rows@) == first + all.take(n),
        decreases ring.len(),
    {
        let ghost ring0 = ring@;
        assert(rows_view(ring0).len() == ring0.len());
        match ring.pop_front() {
            Some(row) => {
                assert(rows_view(ring0)[0] == row@);
                assert(row@ == all[n]);
                assert(rows_view(ring@) =~= rows_view(ring0).skip(1));
                assert(all.skip(n).skip(1) =~= all.skip(n + 1));
                let ghost vec0 = rows@;
                let ghost moved = row@;
                rows.push(row);
                assert(rows_view(rows@) =~= rows_view(vec0).push(moved));
                assert(first + all.take(n + 1) =~= (first + all.take(n)).push(moved));
                proof {
                    n = n + 1;
                }
            },
            None => {},
        }
    }
    assert(rows_view(ring@).len() == 0);
    assert(rows_view(ring@) =~= Seq::empty());
    assert(all.take(n) =~= all);
}

impl Buffer {
    /// Take every row of the stream out, oldest first.
    fn drain_stream(&mut self) -> (rows: Vec<Row>)
        ensures
            rows_view(rows@) == old(self)@.stream(),
            final(self)@ == (BufferView {
                lines: Seq::empty(),
                scrollback: Seq::empty(),
                ..old(self)@
            }),
    {
        let mut rows: Vec<Row> = Vec::new();
        assert(rows_view(rows@) =~= Seq::empty());
        drain_rows(&mut self.scrollback, &mut rows);
        drain_rows(&mut self.lines, &mut rows);
        assert(rows_view(rows@) =~= old(self)@.stream());
        rows
    }

    /// Rewrap the buffer to `new_cols` by `new_rows`: soft-wrapped lines are joined and laid
    /// out at the new width instead of being clamped.
    ///
    /// The cursor, the saved cursor and the scrolled view are carried across by their
    /// logical position. Rows from `frozen_from` on are the live prompt, which the shell
    /// repaints by its own row count, so they are clamped one for one. Returns the view
    /// re-derived for the new geometry, and the map that carries everything anchored by id
    /// from outside.
    pub fn reflow(
        &mut self,
        new_cols: usize,
        new_rows: usize,
        view_offset: usize,
        frozen_from: usize,
    ) -> (r: (usize, RowRemap))
        requires
            old(self)@.wf(),
            new_cols <= MAX_SIDE,
            side(new_rows) + old(self)@.scrollback_limit <= MAX_SIDE,
        ensures
            final(self)@ == reflowed(
                old(self)@,
                side(new_cols),
                side(new_rows),
                frozen_from as int,
            ),
            final(self)@.wf(),
            r.0 == reflow_view(
                old(self)@,
                side(new_cols),
                side(new_rows),
                view_offset as int,
                frozen_from as int,
            ),
            r.0 <= final(self)@.scrollback.len(),
            r.1@ == reflow_remap(
                old(self)@,
                side(new_cols),
                side(new_rows),
                frozen_from as int,
            ),
            r.1@.wf(),
    {
        let cols: usize = if new_cols < 1 {
            1
        } else {
            new_cols
        };
        let rows: usize = if new_rows < 1 {
            1
        } else {
            new_rows
        };
        self.reflow_to(cols, rows, view_offset, frozen_from)
    }

    /// The rewrap proper, to a size of at least one cell.
    #[verifier::rlimit(40)]
    fn reflow_to(
        &mut self,
        new_cols: usize,
        new_rows: usize,
        view_offset: usize,
        frozen_from: usize,
    ) -> (r: (usize, RowRemap))
        requires
            old(self)@.wf(),
            1 <= new_cols <= MAX_SIDE,
            1 <= new_rows,
            new_rows + old(self)@.scrollback_limit <= MAX_SIDE,
        ensures
            final(self)@ == reflowed(old(self)@, new_cols, new_rows, frozen_from as int),
            final(self)@.wf(),
            r.0 == reflow_view(
                old(self)@,
                new_cols,
                new_rows,
                view_offset as int,
                frozen_from as int,
            ),
            r.0 <= final(self)@.scrollback.len(),
            r.1@ == reflow_remap(old(self)@, new_cols, new_rows, frozen_from as int),
            r.1@.wf(),
    {
        let ghost b = self@;
        let ghost fz = frozen_from as int;
        let ghost nc = new_cols as int;
        let ghost nr = new_rows as int;
        proof {
            lemma_reflowed_wf(b, new_cols, new_rows, fz);
        }
        let old_scrollback: usize = self.scrollback.len();
        let cursor_idx: usize = old_scrollback + self.cursor.row;
        let view_idx: usize = if old_scrollback > view_offset {
            old_scrollback - view_offset
        } else {
            0
        };
        let old_rows = self.drain_stream();
        let mut pool: Vec<Row> = Vec::new();
        let (mut rows, mut remap) = rewrap(
            old_rows,
            cursor_idx,
            self.cols,
            new_cols,
            frozen_from,
            self.evicted,
            &mut pool,
            Ghost(b),
        );
        let ghost stream = reflow_stream(b, nc, fz);
        let total = rows.len();
        assert(rows_view(rows@).len() == total);
        let (cursor_new_idx, cursor_new_col) = match remap.locate(cursor_idx, self.cursor.col) {
            Some(p) => p,
            None => (if total > 0 {
                total - 1
            } else {
                0
            }, 0),
        };
        assert((cursor_new_idx as int, cursor_new_col as int) == reflow_cursor(b, nc, fz));
        let floor: usize = if total > new_rows {
            total - new_rows
        } else {
            0
        };
        let live_top: usize = smaller(floor, cursor_new_idx);
        assert(live_top == reflow_top(b, nc, nr, fz));
        let ghost end = least(live_top + new_rows, stream.len() as int);
        let live = rows.split_off(live_top);
        assert(rows_view(rows@) =~= stream.take(live_top as int));
        assert(rows_view(live@) =~= stream.skip(live_top as int));
        assert(rows_view(live@).len() == live@.len());
        let live = fit_rows(live, new_rows, new_cols, &mut pool);
        assert(stream.skip(live_top as int).take(end - live_top) =~= stream.subrange(
            live_top as int,
            end,
        ));
        assert(Seq::<RowView>::empty() + stream.take(live_top as int) =~= stream.take(
            live_top as int,
        ));
        assert(rows_view(rows@).len() == rows@.len());
        let (ring, dropped) = keep_newest(rows, self.scrollback_limit);
        assert(rows_view(ring@).len() == ring@.len());
        self.scrollback = ring;
        self.lines = live;
        self.cols = new_cols;
        self.rows = new_rows;
        self.evicted = self.evicted.saturating_add(dropped as u64);
        self.cursor.row = screen_row(cursor_new_idx, live_top, new_rows);
        self.cursor.col = smaller(cursor_new_col, new_cols - 1);
        self.cursor.pending_wrap = self.cursor.pending_wrap && self.cursor.col == new_cols - 1;
        self.saved = match self.saved {
            Some(s) => Some(
                carry_saved(
                    &remap,
                    s,
                    old_scrollback + s.cursor.row,
                    live_top,
                    new_cols,
                    new_rows,
                ),
            ),
            None => None,
        };
        self.scroll_top = 0;
        self.scroll_bottom = new_rows - 1;
        self.grow_tabs(new_cols);
        assert(self@ =~= reflowed(b, new_cols, new_rows, fz));
        let new_view: usize = if view_offset > 0 {
            match remap.locate(view_idx, 0) {
                Some((idx, _)) => if live_top > idx {
                    smaller(live_top - idx, self.scrollback.len())
                } else {
                    0
                },
                None => 0,
            }
        } else {
            0
        };
        remap.kept_from = self.evicted;
        (new_view, remap)
    }
}

} // verus!
