//! The cursor and the cells around it: control characters, tab stops, moves, erases,
//! inserts and deletes, scrolling, and the saved cursor.
use vstd::prelude::*;
use crate::buffer::{least, smaller, Buffer, BufferView};
use crate::cell::{narrow_cell, Cell, Cursor, Saved};
use crate::row::RowView;
use crate::screen::{Modes, Screen, ScreenView};

verus! {

/// The first tab stop at `c` or beyond, `cols` where there is none.
pub open spec fn next_stop(tabs: Seq<bool>, cols: int, c: int) -> int
    decreases cols - c,
{
    if c >= cols || (c < tabs.len() && tabs[c]) {
        c
    } else {
        next_stop(tabs, cols, c + 1)
    }
}

/// The last tab stop at `c` or before, 0 where there is none.
pub open spec fn prev_stop(tabs: Seq<bool>, c: int) -> int
    decreases c,
{
    if c <= 0 {
        0
    } else if c < tabs.len() && tabs[c] {
        c
    } else {
        prev_stop(tabs, c - 1)
    }
}

/// The column `n` tab stops back.
pub open spec fn stops_back(tabs: Seq<bool>, col: int, n: int) -> int
    decreases n,
{
    if n <= 0 || col <= 0 {
        col
    } else {
        stops_back(tabs, prev_stop(tabs, col - 1), n - 1)
    }
}

/// A count parameter: 0 stands for 1.
pub open spec fn at_least_one(n: int) -> int {
    if n < 1 {
        1
    } else {
        n
    }
}

impl BufferView {
    /// The buffer with the cursor elsewhere and no wrap pending.
    pub open spec fn at(self, row: int, col: int) -> BufferView {
        BufferView {
            cursor: Cursor { row: row as usize, col: col as usize, pending_wrap: false },
            ..self
        }
    }

    /// The buffer with no wrap pending.
    pub open spec fn unwrapped(self) -> BufferView {
        self.at(self.cursor.row as int, self.cursor.col as int)
    }

    /// The buffer with the cursor on the next tab stop, or in the last column.
    pub open spec fn tabbed(self) -> BufferView {
        self.at(
            self.cursor.row as int,
            least(next_stop(self.tabs, self.cols as int, self.cursor.col + 1), self.cols - 1),
        )
    }

    /// The buffer with the cursor `n` tab stops back.
    pub open spec fn back_tabbed(self, n: int) -> BufferView {
        self.at(
            self.cursor.row as int,
            stops_back(self.tabs, self.cursor.col as int, at_least_one(n)),
        )
    }

    /// The buffer with or without a tab stop in the cursor's column.
    pub open spec fn with_stop(self, stop: bool) -> BufferView {
        BufferView { tabs: self.tabs.update(self.cursor.col as int, stop), ..self }
    }

    /// The buffer with its tab stops cleared as `mode` says: the one here, all of them, or
    /// none.
    pub open spec fn stops_cleared(self, mode: u16) -> BufferView {
        if mode == 0 {
            self.with_stop(false)
        } else if mode == 3 {
            BufferView { tabs: Seq::new(self.tabs.len(), |i: int| false), ..self }
        } else {
            self
        }
    }

    /// The cursor `n` rows up, held by the top margin when it is below it.
    pub open spec fn moved_up(self, n: int) -> BufferView {
        let limit = if self.cursor.row >= self.scroll_top {
            self.scroll_top as int
        } else {
            0
        };
        let row = self.cursor.row - at_least_one(n);
        self.at(
            if row < limit {
                limit
            } else {
                row
            },
            self.cursor.col as int,
        )
    }

    /// The cursor `n` rows down, held by the bottom margin when it is above it.
    pub open spec fn moved_down(self, n: int) -> BufferView {
        let limit = if self.cursor.row <= self.scroll_bottom {
            self.scroll_bottom as int
        } else {
            self.rows - 1
        };
        self.at(least(self.cursor.row + at_least_one(n), limit), self.cursor.col as int)
    }

    /// The cursor `n` columns right, held by the edge.
    pub open spec fn moved_forward(self, n: int) -> BufferView {
        self.at(self.cursor.row as int, least(self.cursor.col + at_least_one(n), self.cols - 1))
    }

    /// The cursor `n` columns left, held by the edge.
    pub open spec fn moved_back(self, n: int) -> BufferView {
        let col = self.cursor.col - at_least_one(n);
        self.at(
            self.cursor.row as int,
            if col < 0 {
                0
            } else {
                col
            },
        )
    }

    /// The cursor at an addressed position.
    pub open spec fn moved_to(self, row: int, col: int, origin: bool) -> BufferView {
        self.at(self.addressed_row(row, origin), least(col, self.cols - 1))
    }

    /// The cursor's line erased: to its end, up to the cursor, or whole.
    pub open spec fn line_erased(self, mode: u16, blank: Cell) -> BufferView {
        let (lo, hi) = if mode == 1 {
            (0, self.cursor.col + 1)
        } else if mode == 2 {
            (0, self.cols as int)
        } else {
            (self.cursor.col as int, self.cols as int)
        };
        self.with_line(
            self.cursor.row as int,
            self.lines[self.cursor.row as int].erase(lo, hi, blank),
        ).unwrapped()
    }

    /// Rows `from` up to `to` filled with `blank`.
    pub open spec fn rows_filled(self, from: int, to: int, blank: Cell) -> BufferView {
        BufferView {
            lines: Seq::new(
                self.lines.len(),
                |i: int|
                    if from <= i < to {
                        RowView::filled(self.cols as int, blank)
                    } else {
                        self.lines[i]
                    },
            ),
            ..self
        }
    }

    /// The display erased: to its end, up to the cursor, or whole.
    pub open spec fn display_erased(self, mode: u16, blank: Cell) -> BufferView {
        let row = self.cursor.row as int;
        let col = self.cursor.col as int;
        let filled = RowView::filled(self.cols as int, blank);
        let lines = if mode == 1 {
            Seq::new(
                self.lines.len(),
                |i: int|
                    if i < row {
                        filled
                    } else if i == row {
                        self.lines[i].erase(0, col + 1, blank)
                    } else {
                        self.lines[i]
                    },
            )
        } else if mode == 2 || mode == 3 {
            Seq::new(self.lines.len(), |i: int| filled)
        } else {
            Seq::new(
                self.lines.len(),
                |i: int|
                    if i > row {
                        filled
                    } else if i == row {
                        self.lines[i].erase(col, self.cols as int, blank)
                    } else {
                        self.lines[i]
                    },
            )
        };
        let erased = BufferView { lines, ..self }.unwrapped();
        if mode == 3 {
            erased.without_history()
        } else {
            erased
        }
    }

    /// `n` cells from the cursor erased.
    pub open spec fn chars_erased(self, n: int, blank: Cell) -> BufferView {
        let (row, col) = (self.cursor.row as int, self.cursor.col as int);
        self.with_line(
            row,
            self.lines[row].erase(col, col + at_least_one(n), blank),
        ).unwrapped()
    }

    /// `n` blanks opened at the cursor.
    pub open spec fn chars_inserted(self, n: int, blank: Cell) -> BufferView {
        let (row, col) = (self.cursor.row as int, self.cursor.col as int);
        self.with_line(row, self.lines[row].insert(col, at_least_one(n), blank)).unwrapped()
    }

    /// `n` cells taken out at the cursor.
    pub open spec fn chars_deleted(self, n: int, blank: Cell) -> BufferView {
        let (row, col) = (self.cursor.row as int, self.cursor.col as int);
        self.with_line(row, self.lines[row].delete(col, at_least_one(n), blank)).unwrapped()
    }

    /// The scroll region set, or back to the full screen where it is empty or inverted.
    pub open spec fn with_region(self, top: int, bottom: int) -> BufferView {
        let bottom = least(bottom, self.rows - 1);
        if top < bottom {
            BufferView { scroll_top: top as usize, scroll_bottom: bottom as usize, ..self }
        } else {
            self.full_region()
        }
    }

    /// The scroll region back to the full screen.
    pub open spec fn full_region(self) -> BufferView {
        BufferView { scroll_top: 0, scroll_bottom: (self.rows - 1) as usize, ..self }
    }

    /// The cursor of a saved state, on the screen as it now is.
    pub open spec fn restored(self, c: Cursor) -> BufferView {
        BufferView {
            cursor: Cursor {
                row: least(c.row as int, self.rows - 1) as usize,
                col: least(c.col as int, self.cols - 1) as usize,
                pending_wrap: c.pending_wrap,
            },
            ..self
        }
    }
}

impl ScreenView {
    /// The screen after a carriage return.
    pub open spec fn returned(self) -> ScreenView {
        self.with_active(self.active().at(self.active().cursor.row as int, 0))
    }

    /// The region scrolled up by `n`.
    pub open spec fn region_up(self, b: BufferView, top: int, n: int, keep: bool) -> ScreenView {
        let bottom = b.scroll_bottom as int;
        self.with_active(b.scrolled_up(top, bottom, n, self.blank(), keep)).settled(
            b.scroll_up_effect(top, bottom, n, keep),
        )
    }

    /// The region scrolled down by `n`.
    pub open spec fn region_down(self, b: BufferView, top: int, n: int) -> ScreenView {
        let bottom = b.scroll_bottom as int;
        self.with_active(b.scrolled_down(top, bottom, n, self.blank())).settled(
            b.scroll_down_effect(top, bottom, n),
        )
    }

    /// The screen after a line feed: one row down, the region scrolling at its bottom.
    pub open spec fn line_fed(self) -> ScreenView {
        let b = self.active().unwrapped();
        if b.cursor.row == b.scroll_bottom {
            self.region_up(b, b.scroll_top as int, 1, b.scroll_top == 0)
        } else if b.cursor.row + 1 < b.rows {
            self.with_active(b.at(b.cursor.row + 1, b.cursor.col as int))
        } else {
            self.with_active(b)
        }
    }

    /// The screen after a reverse index: one row up, the region scrolling at its top.
    pub open spec fn reverse_indexed(self) -> ScreenView {
        let b = self.active().unwrapped();
        if b.cursor.row == b.scroll_top {
            self.region_down(b, b.scroll_top as int, 1)
        } else if b.cursor.row > 0 {
            self.with_active(b.at(b.cursor.row - 1, b.cursor.col as int))
        } else {
            self.with_active(b)
        }
    }

    /// The screen after a backspace.
    pub open spec fn backspaced(self) -> ScreenView {
        let c = self.active().cursor;
        self.with_active(
            self.active().at(
                c.row as int,
                if c.col > 0 {
                    c.col - 1
                } else {
                    0
                },
            ),
        )
    }

    /// The screen after `n` tabs.
    pub open spec fn tabbed(self, n: int) -> ScreenView
        decreases n,
    {
        if n <= 0 {
            self
        } else {
            let s = self.tabbed(n - 1);
            s.with_active(s.active().tabbed())
        }
    }

    /// The screen with the cursor at an addressed position.
    pub open spec fn moved_to(self, row: int, col: int) -> ScreenView {
        self.with_active(self.active().moved_to(row, col, self.modes.origin_mode))
    }

    /// The screen with its display erased. Erasing all of it ends the epoch; erasing the
    /// history too brings the view back to the bottom.
    pub open spec fn display_erased(self, mode: u16) -> ScreenView {
        let s = self.with_active(self.active().display_erased(mode, self.blank()));
        if mode == 2 {
            s.identity_broken()
        } else if mode == 3 {
            ScreenView { view_offset: 0, ..s.identity_broken() }
        } else {
            s
        }
    }

    /// `n` lines inserted at the cursor, inside the region.
    pub open spec fn lines_inserted(self, n: int) -> ScreenView {
        let b = self.active();
        if b.scroll_top <= b.cursor.row <= b.scroll_bottom {
            let s = self.region_down(b, b.cursor.row as int, at_least_one(n));
            s.returned()
        } else {
            self
        }
    }

    /// `n` lines deleted at the cursor, inside the region; they are not history.
    pub open spec fn lines_deleted(self, n: int) -> ScreenView {
        let b = self.active();
        if b.scroll_top <= b.cursor.row <= b.scroll_bottom {
            let s = self.region_up(b, b.cursor.row as int, at_least_one(n), false);
            s.returned()
        } else {
            self
        }
    }

    /// The scroll region set and the cursor homed.
    pub open spec fn with_region(self, top: int, bottom: int) -> ScreenView {
        self.with_active(self.active().with_region(top, bottom)).moved_to(0, 0)
    }

    /// The region scrolled up by `n`; rows leaving the top of the screen enter history.
    pub open spec fn scrolled_up(self, n: int) -> ScreenView {
        let b = self.active();
        self.region_up(b, b.scroll_top as int, at_least_one(n), b.scroll_top == 0)
    }

    /// The region scrolled down by `n`.
    pub open spec fn scrolled_down(self, n: int) -> ScreenView {
        let b = self.active();
        self.region_down(b, b.scroll_top as int, at_least_one(n))
    }

    /// The cursor, the pen, the origin mode and the character sets saved.
    pub open spec fn cursor_saved(self) -> ScreenView {
        self.with_active(
            BufferView {
                saved: Some(
                    Saved {
                        cursor: self.active().cursor,
                        pen: self.pen,
                        origin: self.modes.origin_mode,
                        charsets: self.charsets,
                    },
                ),
                ..self.active()
            },
        )
    }

    /// What was saved put back, or the cursor homed where nothing was.
    pub open spec fn cursor_restored(self) -> ScreenView {
        match self.active().saved {
            Some(s) => self.put_back(s),
            None => self.moved_to(0, 0),
        }
    }

    /// A saved state put back.
    pub open spec fn put_back(self, s: Saved) -> ScreenView {
        ScreenView {
            pen: s.pen,
            modes: Modes { origin_mode: s.origin, ..self.modes },
            charsets: s.charsets,
            ..self.with_active(self.active().restored(s.cursor))
        }
    }

    /// The alignment pattern: the screen full of one letter, the region full, the cursor
    /// home.
    pub open spec fn aligned(self) -> ScreenView {
        self.with_active(
            self.active().cleared(Cell { rune: 'E', ..Cell::blank() }).full_region().at(0, 0),
        )
    }
}

fn larger(a: usize, b: usize) -> (r: usize)
    ensures
        r == (if a < b { b } else { a }),
{
    if a < b {
        b
    } else {
        a
    }
}

proof fn lemma_next_stop(tabs: Seq<bool>, cols: int, c: int)
    requires
        0 <= c <= cols,
    ensures
        c <= next_stop(tabs, cols, c) <= cols,
    decreases cols - c,
{
    if !(c >= cols || (c < tabs.len() && tabs[c])) {
        lemma_next_stop(tabs, cols, c + 1);
    }
}

impl Buffer {
    /// Fill rows `from` up to `to`.
    fn fill_rows(&mut self, from: usize, to: usize, blank: Cell)
        requires
            old(self)@.wf(),
            from <= to <= old(self)@.rows,
            narrow_cell(blank),
        ensures
            final(self)@ == old(self)@.rows_filled(from as int, to as int, blank),
            final(self)@.wf(),
    {
        let ghost view = self@;
        let mut r: usize = from;
        assert(view.rows_filled(from as int, from as int, blank) =~= view);
        while r < to
            invariant
                self@ == view.rows_filled(from as int, r as int, blank),
                self@.wf(),
                from <= r <= to <= view.rows,
                view.wf(),
                narrow_cell(blank),
            decreases to - r,
        {
            self.clear_line_full(r, blank);
            r = r + 1;
            assert(self@ =~= view.rows_filled(from as int, r as int, blank));
        }
    }

    /// Erase in display, and drop a deferred wrap.
    fn erase_display(&mut self, mode: u16, blank: Cell)
        requires
            old(self)@.wf(),
            narrow_cell(blank),
        ensures
            final(self)@ == old(self)@.display_erased(mode, blank),
            final(self)@.wf(),
    {
        let (row, col, rows, cols) = (self.cursor.row, self.cursor.col, self.rows, self.cols);
        if mode == 1 {
            self.fill_rows(0, row, blank);
            self.clear_line_range(row, 0, col + 1, blank);
            self.cursor.pending_wrap = false;
        } else if mode == 2 || mode == 3 {
            self.clear_all(blank);
            if mode == 3 {
                self.clear_history();
            }
            self.cursor.pending_wrap = false;
        } else {
            self.clear_line_range(row, col, cols, blank);
            self.fill_rows(row + 1, rows, blank);
            self.cursor.pending_wrap = false;
        }
        assert(self@ =~= old(self)@.display_erased(mode, blank));
    }
}

impl Screen {
    // ---- control characters ----------------------------------------------------------

    /// CR: to the first column.
    pub fn carriage_return(&mut self)
        requires
            old(self).wf(),
        ensures
            final(self)@ == old(self)@.returned(),
            final(self).wf(),
    {
        let b = self.active_mut();
        b.cursor.col = 0;
        b.cursor.pending_wrap = false;
    }

    /// LF: move down one row, scrolling the region up at the bottom margin.
    pub fn line_feed(&mut self)
        requires
            old(self).wf(),
        ensures
            final(self)@ == old(self)@.line_fed(),
            final(self).wf(),
    {
        let blank = self.blank_cell();
        let b = self.active_mut();
        b.cursor.pending_wrap = false;
        if b.cursor.row == b.scroll_bottom {
            let (top, bottom) = (b.scroll_top, b.scroll_bottom);
            let scrolled = b.scroll_up_range(top, bottom, 1, blank, top == 0);
            self.after_scroll(scrolled);
        } else if b.cursor.row + 1 < b.rows {
            b.cursor.row = b.cursor.row + 1;
        }
    }

    /// RI: move up one row, scrolling the region down at the top margin.
    pub fn reverse_index(&mut self)
        requires
            old(self).wf(),
        ensures
            final(self)@ == old(self)@.reverse_indexed(),
            final(self).wf(),
    {
        let blank = self.blank_cell();
        let b = self.active_mut();
        b.cursor.pending_wrap = false;
        if b.cursor.row == b.scroll_top {
            let (top, bottom) = (b.scroll_top, b.scroll_bottom);
            let scrolled = b.scroll_down_range(top, bottom, 1, blank);
            self.after_scroll(scrolled);
        } else if b.cursor.row > 0 {
            b.cursor.row = b.cursor.row - 1;
        }
    }

    /// NEL: carriage return plus line feed.
    pub fn next_line(&mut self)
        requires
            old(self).wf(),
        ensures
            final(self)@ == old(self)@.line_fed().returned(),
            final(self).wf(),
    {
        self.line_feed();
        self.carriage_return();
    }

    /// BS: one column left, held by the edge.
    pub fn backspace(&mut self)
        requires
            old(self).wf(),
        ensures
            final(self)@ == old(self)@.backspaced(),
            final(self).wf(),
    {
        let b = self.active_mut();
        if b.cursor.col > 0 {
            b.cursor.col = b.cursor.col - 1;
        }
        b.cursor.pending_wrap = false;
    }

    // ---- tab stops -------------------------------------------------------------------

    /// HT: advance to the next tab stop, or the last column.
    pub fn tab(&mut self)
        requires
            old(self).wf(),
        ensures
            final(self)@ == old(self)@.with_active(old(self)@.active().tabbed()),
            final(self).wf(),
    {
        let ghost view = self@.active();
        let b = self.active_mut();
        let mut c: usize = b.cursor.col + 1;
        while c < b.cols && !b.tabs[c]
            invariant
                b@ == view,
                view.wf(),
                c <= view.cols,
                next_stop(view.tabs, view.cols as int, view.cursor.col + 1) == next_stop(
                    view.tabs,
                    view.cols as int,
                    c as int,
                ),
            decreases b.cols - c,
        {
            c = c + 1;
        }
        proof {
            lemma_next_stop(view.tabs, view.cols as int, view.cursor.col + 1);
        }
        b.cursor.col = smaller(c, b.cols - 1);
        b.cursor.pending_wrap = false;
    }

    /// HTS: set a tab stop at the cursor column.
    pub fn set_tab_stop(&mut self)
        requires
            old(self).wf(),
        ensures
            final(self)@ == old(self)@.with_active(old(self)@.active().with_stop(true)),
            final(self).wf(),
    {
        let b = self.active_mut();
        let col: usize = b.cursor.col;
        b.tabs.set(col, true);
    }

    /// CBT: move back `n` tab stops, stopping at column 0.
    pub fn back_tab(&mut self, n: usize)
        requires
            old(self).wf(),
        ensures
            final(self)@ == old(self)@.with_active(old(self)@.active().back_tabbed(n as int)),
            final(self).wf(),
    {
        let ghost view = self@.active();
        let b = self.active_mut();
        let mut left: usize = larger(n, 1);
        let mut col: usize = b.cursor.col;
        while left > 0 && col > 0
            invariant
                b@ == view,
                view.wf(),
                col < view.cols,
                stops_back(view.tabs, view.cursor.col as int, at_least_one(n as int))
                    == stops_back(view.tabs, col as int, left as int),
            decreases left,
        {
            let ghost from = col - 1;
            let mut c: usize = col - 1;
            while c > 0 && !b.tabs[c]
                invariant
                    b@ == view,
                    view.wf(),
                    c <= from < view.cols,
                    prev_stop(view.tabs, from) == prev_stop(view.tabs, c as int),
                decreases c,
            {
                c = c - 1;
            }
            col = c;
            left = left - 1;
        }
        b.cursor.col = col;
        b.cursor.pending_wrap = false;
    }

    /// TBC: clear the tab stop at the cursor (mode 0) or every stop (mode 3). Any other mode
    /// is ignored.
    pub fn clear_tab_stop(&mut self, mode: u16)
        requires
            old(self).wf(),
        ensures
            final(self)@ == old(self)@.with_active(old(self)@.active().stops_cleared(mode)),
            final(self).wf(),
    {
        let ghost view = self@.active();
        let b = self.active_mut();
        if mode == 0 {
            let col: usize = b.cursor.col;
            b.tabs.set(col, false);
        } else if mode == 3 {
            let mut i: usize = 0;
            while i < b.tabs.len()
                invariant
                    i <= b.tabs@.len(),
                    b@ == (BufferView { tabs: b.tabs@, ..view }),
                    b.tabs@.len() == view.tabs.len(),
                    forall|j: int| 0 <= j < i ==> !#[trigger] b.tabs@[j],
                decreases b.tabs.len() - i,
            {
                b.tabs.set(i, false);
                i = i + 1;
            }
            assert(b.tabs@ =~= Seq::new(view.tabs.len(), |i: int| false));
        }
    }

    // ---- cursor movement -------------------------------------------------------------

    /// CUU: up `n` rows, held by the top margin.
    pub fn move_up(&mut self, n: usize)
        requires
            old(self).wf(),
        ensures
            final(self)@ == old(self)@.with_active(old(self)@.active().moved_up(n as int)),
            final(self).wf(),
    {
        let b = self.active_mut();
        let limit: usize = if b.cursor.row >= b.scroll_top {
            b.scroll_top
        } else {
            0
        };
        b.cursor.row = larger(b.cursor.row.saturating_sub(larger(n, 1)), limit);
        b.cursor.pending_wrap = false;
    }

    /// CUD: down `n` rows, held by the bottom margin.
    pub fn move_down(&mut self, n: usize)
        requires
            old(self).wf(),
        ensures
            final(self)@ == old(self)@.with_active(old(self)@.active().moved_down(n as int)),
            final(self).wf(),
    {
        let b = self.active_mut();
        let limit: usize = if b.cursor.row <= b.scroll_bottom {
            b.scroll_bottom
        } else {
            b.rows - 1
        };
        b.cursor.row = smaller(b.cursor.row.saturating_add(larger(n, 1)), limit);
        b.cursor.pending_wrap = false;
    }

    /// CUF: right `n` columns, held by the edge.
    pub fn move_forward(&mut self, n: usize)
        requires
            old(self).wf(),
        ensures
            final(self)@ == old(self)@.with_active(old(self)@.active().moved_forward(n as int)),
            final(self).wf(),
    {
        let b = self.active_mut();
        b.cursor.col = smaller(b.cursor.col.saturating_add(larger(n, 1)), b.cols - 1);
        b.cursor.pending_wrap = false;
    }

    /// CUB: left `n` columns, held by the edge.
    pub fn move_back(&mut self, n: usize)
        requires
            old(self).wf(),
        ensures
            final(self)@ == old(self)@.with_active(old(self)@.active().moved_back(n as int)),
            final(self).wf(),
    {
        let b = self.active_mut();
        b.cursor.col = b.cursor.col.saturating_sub(larger(n, 1));
        b.cursor.pending_wrap = false;
    }

    /// CUP: move to `(row, col)`, honouring origin mode.
    pub fn move_to(&mut self, row: usize, col: usize)
        requires
            old(self).wf(),
        ensures
            final(self)@ == old(self)@.moved_to(row as int, col as int),
            final(self).wf(),
    {
        let origin = self.modes.origin_mode;
        let b = self.active_mut();
        b.cursor.row = b.origin_row(row, origin);
        b.cursor.col = smaller(col, b.cols - 1);
        b.cursor.pending_wrap = false;
    }

    /// CHA: move to an absolute column.
    pub fn move_to_col(&mut self, col: usize)
        requires
            old(self).wf(),
        ensures
            final(self)@ == old(self)@.with_active(
                old(self)@.active().at(
                    old(self)@.active().cursor.row as int,
                    least(col as int, old(self)@.active().cols - 1),
                ),
            ),
            final(self).wf(),
    {
        let b = self.active_mut();
        b.cursor.col = smaller(col, b.cols - 1);
        b.cursor.pending_wrap = false;
    }

    /// VPA: move to a row, honouring origin mode.
    pub fn move_to_row(&mut self, row: usize)
        requires
            old(self).wf(),
        ensures
            final(self)@ == old(self)@.moved_to(
                row as int,
                old(self)@.active().cursor.col as int,
            ),
            final(self).wf(),
    {
        let origin = self.modes.origin_mode;
        let b = self.active_mut();
        b.cursor.row = b.origin_row(row, origin);
        b.cursor.pending_wrap = false;
    }

    // ---- erase -----------------------------------------------------------------------

    /// EL: erase in line. 0 = cursor to end, 1 = start to cursor, 2 = whole line.
    pub fn erase_line(&mut self, mode: u16)
        requires
            old(self).wf(),
        ensures
            final(self)@ == old(self)@.with_active(
                old(self)@.active().line_erased(mode, old(self)@.blank()),
            ),
            final(self).wf(),
    {
        let blank = self.blank_cell();
        let b = self.active_mut();
        let (row, col, cols) = (b.cursor.row, b.cursor.col, b.cols);
        let (start, end): (usize, usize) = match mode {
            1 => (0, col + 1),
            2 => (0, cols),
            _ => (col, cols),
        };
        b.clear_line_range(row, start, end, blank);
        b.cursor.pending_wrap = false;
    }

    /// ECH: blank `n` cells from the cursor without shifting anything. Cancels a deferred
    /// wrap, as every operator that rewrites the cells around the cursor does.
    pub fn erase_chars(&mut self, n: usize)
        requires
            old(self).wf(),
        ensures
            final(self)@ == old(self)@.with_active(
                old(self)@.active().chars_erased(n as int, old(self)@.blank()),
            ),
            final(self).wf(),
    {
        let blank = self.blank_cell();
        let b = self.active_mut();
        b.cursor.pending_wrap = false;
        let (row, col) = (b.cursor.row, b.cursor.col);
        b.clear_line_range(row, col, col.saturating_add(larger(n, 1)), blank);
    }

    /// ED: erase in display. 0 = cursor to end, 1 = start to cursor, 2 = all, 3 = all plus
    /// scrollback.
    pub fn erase_display(&mut self, mode: u16)
        requires
            old(self).wf(),
        ensures
            final(self)@ == old(self)@.display_erased(mode),
            final(self).wf(),
    {
        let blank = self.blank_cell();
        if mode == 3 {
            // The history the view is scrolled into is about to go.
            self.view_offset = 0;
        }
        let b = self.active_mut();
        b.erase_display(mode, blank);
        if mode == 2 || mode == 3 {
            self.break_row_identity();
        }
    }

    // ---- insert and delete -----------------------------------------------------------

    /// ICH: insert `n` blanks at the cursor, shifting the rest of the line right.
    pub fn insert_chars(&mut self, n: usize)
        requires
            old(self).wf(),
        ensures
            final(self)@ == old(self)@.with_active(
                old(self)@.active().chars_inserted(n as int, old(self)@.blank()),
            ),
            final(self).wf(),
    {
        let blank = self.blank_cell();
        let b = self.active_mut();
        b.cursor.pending_wrap = false;
        let (row, col) = (b.cursor.row, b.cursor.col);
        b.insert_blanks(row, col, larger(n, 1), blank);
    }

    /// DCH: delete `n` cells at the cursor, shifting the rest of the line left.
    pub fn delete_chars(&mut self, n: usize)
        requires
            old(self).wf(),
        ensures
            final(self)@ == old(self)@.with_active(
                old(self)@.active().chars_deleted(n as int, old(self)@.blank()),
            ),
            final(self).wf(),
    {
        let blank = self.blank_cell();
        let b = self.active_mut();
        b.cursor.pending_wrap = false;
        let (row, col) = (b.cursor.row, b.cursor.col);
        b.delete_chars(row, col, larger(n, 1), blank);
    }

    /// IL: insert `n` blank lines at the cursor row, within the scroll region.
    pub fn insert_lines(&mut self, n: usize)
        requires
            old(self).wf(),
        ensures
            final(self)@ == old(self)@.lines_inserted(n as int),
            final(self).wf(),
    {
        let blank = self.blank_cell();
        let b = self.active_mut();
        if b.cursor.row < b.scroll_top || b.cursor.row > b.scroll_bottom {
            return;
        }
        let (top, bottom) = (b.cursor.row, b.scroll_bottom);
        let scrolled = b.scroll_down_range(top, bottom, larger(n, 1), blank);
        b.cursor.col = 0;
        b.cursor.pending_wrap = false;
        self.after_scroll(scrolled);
    }

    /// DL: delete `n` lines at the cursor row, within the scroll region. The deleted rows are
    /// discarded, never kept as history: this is an edit, not a scroll.
    pub fn delete_lines(&mut self, n: usize)
        requires
            old(self).wf(),
        ensures
            final(self)@ == old(self)@.lines_deleted(n as int),
            final(self).wf(),
    {
        let blank = self.blank_cell();
        let b = self.active_mut();
        if b.cursor.row < b.scroll_top || b.cursor.row > b.scroll_bottom {
            return;
        }
        let (top, bottom) = (b.cursor.row, b.scroll_bottom);
        let scrolled = b.scroll_up_range(top, bottom, larger(n, 1), blank, false);
        b.cursor.col = 0;
        b.cursor.pending_wrap = false;
        self.after_scroll(scrolled);
    }

    // ---- scrolling -------------------------------------------------------------------

    /// DECSTBM: set the scroll region to `[top, bottom]`, inclusive. An empty or inverted
    /// region resets to the full screen. Homes the cursor.
    pub fn set_scroll_region(&mut self, top: usize, bottom: usize)
        requires
            old(self).wf(),
        ensures
            final(self)@ == old(self)@.with_region(top as int, bottom as int),
            final(self).wf(),
    {
        let b = self.active_mut();
        let bottom: usize = smaller(bottom, b.rows - 1);
        if top < bottom {
            b.scroll_top = top;
            b.scroll_bottom = bottom;
        } else {
            b.scroll_top = 0;
            b.scroll_bottom = b.rows - 1;
        }
        self.move_to(0, 0);
    }

    /// SU: scroll the region up `n` lines. Rows leaving the top of the screen enter history,
    /// exactly as they do for a line feed at the bottom margin.
    pub fn scroll_up(&mut self, n: usize)
        requires
            old(self).wf(),
        ensures
            final(self)@ == old(self)@.scrolled_up(n as int),
            final(self).wf(),
    {
        let blank = self.blank_cell();
        let b = self.active_mut();
        let (top, bottom) = (b.scroll_top, b.scroll_bottom);
        let scrolled = b.scroll_up_range(top, bottom, larger(n, 1), blank, top == 0);
        self.after_scroll(scrolled);
    }

    /// SD: scroll the region down `n` lines.
    pub fn scroll_down(&mut self, n: usize)
        requires
            old(self).wf(),
        ensures
            final(self)@ == old(self)@.scrolled_down(n as int),
            final(self).wf(),
    {
        let blank = self.blank_cell();
        let b = self.active_mut();
        let (top, bottom) = (b.scroll_top, b.scroll_bottom);
        let scrolled = b.scroll_down_range(top, bottom, larger(n, 1), blank);
        self.after_scroll(scrolled);
    }

    // ---- save and restore ------------------------------------------------------------

    /// DECSC: save the cursor, pen, origin mode, and character set shift state.
    pub fn save_cursor(&mut self)
        requires
            old(self).wf(),
        ensures
            final(self)@ == old(self)@.cursor_saved(),
            final(self).wf(),
    {
        let (pen, origin, charsets) = (self.pen, self.modes.origin_mode, self.charsets);
        let b = self.active_mut();
        b.saved = Some(Saved { cursor: b.cursor, pen, origin, charsets });
    }

    /// Put the cursor where it was, on the screen as it now is.
    fn place_cursor(&mut self, c: Cursor)
        requires
            old(self).wf(),
        ensures
            final(self)@ == old(self)@.with_active(old(self)@.active().restored(c)),
            final(self).wf(),
    {
        let b = self.active_mut();
        b.cursor = c;
        b.cursor.row = smaller(c.row, b.rows - 1);
        b.cursor.col = smaller(c.col, b.cols - 1);
    }

    fn put_back(&mut self, s: Saved)
        requires
            old(self).wf(),
            s.pen.wf(),
        ensures
            final(self)@ == old(self)@.put_back(s),
            final(self).wf(),
    {
        self.place_cursor(s.cursor);
        self.pen = s.pen;
        self.modes.origin_mode = s.origin;
        self.charsets = s.charsets;
    }

    /// DECRC: restore what was saved, or home the cursor if nothing was.
    pub fn restore_cursor(&mut self)
        requires
            old(self).wf(),
        ensures
            final(self)@ == old(self)@.cursor_restored(),
            final(self).wf(),
    {
        match self.active().saved {
            Some(s) => self.put_back(s),
            None => self.move_to(0, 0),
        }
    }

    /// DECALN: fill the whole screen with 'E', reset the margins to the extremes of the
    /// page, and home the cursor.
    pub fn decaln(&mut self)
        requires
            old(self).wf(),
        ensures
            final(self)@ == old(self)@.aligned(),
            final(self).wf(),
    {
        let letter = Cell::new('E');
        proof {
            crate::cell::lemma_plain_cell(letter);
        }
        let b = self.active_mut();
        b.clear_all(letter);
        b.scroll_top = 0;
        b.scroll_bottom = b.rows - 1;
        b.cursor = Cursor::home();
    }
}

} // verus!
