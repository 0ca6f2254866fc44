//! The scrolled view over the history, and the absolute rows that name lines through it.
use vstd::prelude::*;
use crate::buffer::{keep_last, least, Scrolled, MAX_SIDE};
use crate::cell::Cell;
use crate::ids::AbsRow;
use crate::row::{marks_of, Row, RowView};
use crate::screen::{Screen, ScreenView};

verus! {

impl ScreenView {
    /// How many lines the view is scrolled up; never on the alternate screen.
    pub open spec fn offset(self) -> int {
        if self.on_alt {
            0
        } else {
            self.view_offset as int
        }
    }

    /// How many lines of history the view can scroll through.
    pub open spec fn history(self) -> int {
        if self.on_alt {
            0
        } else {
            self.primary.scrollback.len() as int
        }
    }

    /// How far down the history and the screen the view sits.
    pub open spec fn position(self) -> int {
        self.history() - self.offset()
    }

    /// The screen with its view put `position` lines down, held inside what there is.
    pub open spec fn viewed_from(self, position: int) -> ScreenView {
        let up = self.history() - position;
        ScreenView {
            view_offset: if up < 0 {
                0
            } else {
                least(up, self.history()) as usize
            },
            ..self
        }
    }

    /// The screen with its view `n` lines further up.
    pub open spec fn viewed_up(self, n: int) -> ScreenView {
        if self.on_alt {
            self
        } else {
            ScreenView {
                view_offset: least(
                    self.view_offset + n,
                    self.primary.scrollback.len() as int,
                ) as usize,
                ..self
            }
        }
    }

    /// The screen with its view `n` lines further down.
    pub open spec fn viewed_down(self, n: int) -> ScreenView {
        ScreenView {
            view_offset: if self.view_offset < n {
                0
            } else {
                (self.view_offset - n) as usize
            },
            ..self
        }
    }

    /// The screen after `pushed` rows retired into history: a scrolled-up view moves up with
    /// the text it shows, and one at the live bottom stays there.
    pub open spec fn following(self, pushed: int) -> ScreenView {
        if pushed == 0 || self.view_offset == 0 {
            self
        } else {
            ScreenView {
                view_offset: least(
                    self.view_offset + pushed,
                    self.primary.scrollback.len() as int,
                ) as usize,
                ..self
            }
        }
    }

    /// The screen once its row ids no longer name the lines they named. The prompt marks go
    /// with them.
    pub open spec fn identity_broken(self) -> ScreenView {
        ScreenView { epoch: self.epoch.succ(), prompts: Seq::empty(), ..self }
    }

    /// What a scroll leaves behind: the view follows the rows that retired, and a scroll
    /// that renumbered the stream ends the epoch.
    pub open spec fn settled(self, scrolled: Scrolled) -> ScreenView {
        let s = self.following(scrolled.pushed as int);
        if scrolled.renumbered {
            s.identity_broken()
        } else {
            s
        }
    }

    /// The stream index of the line shown at the top of the view.
    pub open spec fn top_index(self) -> int {
        self.active().scrollback.len() - self.offset()
    }

    /// The id of the line shown at display `row`.
    pub open spec fn row_id(self, row: int) -> AbsRow {
        self.active().id_at(least(self.top_index() + row, usize::MAX as int))
    }

    /// Where a line is shown, if it is.
    pub open spec fn shown_at(self, abs: AbsRow) -> Option<int> {
        match self.active().index_of(abs) {
            Some(i) => if self.top_index() <= i < self.top_index() + self.active().rows {
                Some(i - self.top_index())
            } else {
                None
            },
            None => None,
        }
    }

    /// The row shown at display `row`.
    pub open spec fn shown_row(self, row: int) -> Option<RowView> {
        if 0 <= row && self.top_index() + row < self.active().stream().len() {
            Some(self.active().stream()[self.top_index() + row])
        } else {
            None
        }
    }

    /// The cell shown at display `(row, col)`, blank where there is none.
    pub open spec fn shown_cell(self, row: int, col: int) -> Cell {
        cell_of(self.shown_row(row), col)
    }

    /// The cell of a named line, blank where there is none.
    pub open spec fn named_cell(self, abs: AbsRow, col: int) -> Cell {
        cell_of(self.active().row_of(abs), col)
    }
}

/// A cell of a row that may be missing, blank where there is none.
pub open spec fn cell_of(row: Option<RowView>, col: int) -> Cell {
    match row {
        Some(r) => if 0 <= col < r.cells.len() {
            r.cells[col]
        } else {
            Cell::blank()
        },
        None => Cell::blank(),
    }
}

/// The marks of a column of a row that may be missing.
pub open spec fn row_marks(row: Option<RowView>, col: int) -> Seq<char> {
    match row {
        Some(r) => marks_of(r.marks, col),
        None => Seq::empty(),
    }
}

fn row_cell(row: Option<&Row>, col: usize) -> (c: Cell)
    ensures
        row matches Some(r) ==> c == cell_of(Some(r@), col as int),
        row is None ==> c == Cell::blank(),
{
    match row {
        Some(r) => if col < r.cells.len() {
            r.cells[col]
        } else {
            Cell::blank()
        },
        None => Cell::blank(),
    }
}

impl Screen {
    /// How many lines the view is scrolled up into scrollback; always 0 on the alternate
    /// screen, which keeps no history.
    pub fn view_offset(&self) -> (r: usize)
        ensures
            r == self@.offset(),
    {
        if self.on_alt {
            0
        } else {
            self.view_offset
        }
    }

    /// Whether the view shows history rather than the live bottom.
    pub fn is_scrolled(&self) -> (r: bool)
        ensures
            r == (self@.offset() > 0),
    {
        self.view_offset() > 0
    }

    /// How many lines of scrollback the primary screen holds.
    pub fn scrollback_len(&self) -> (r: usize)
        ensures
            r == self@.primary.scrollback.len(),
    {
        self.primary.scrollback.len()
    }

    /// Lines of history the view can scroll through: none on the alternate screen. Every
    /// scrollbar question is answered from here.
    fn scrollable_history(&self) -> (r: i32)
        requires
            self.wf(),
        ensures
            r == self@.history(),
    {
        if self.on_alt {
            0
        } else {
            self.scrollback_len() as i32
        }
    }

    /// What a scrollbar needs to size its thumb, in lines: how much there is to scroll
    /// through, and how much of it is on screen.
    pub fn scroll_extent(&self) -> (r: (i32, i32))
        requires
            self.wf(),
        ensures
            r.0 == self@.history() + self@.active().rows,
            r.1 == self@.active().rows,
    {
        let rows: i32 = self.dimensions().1 as i32;
        (self.scrollable_history() + rows, rows)
    }

    /// How far down the whole history and screen the view sits, in lines.
    pub fn scroll_position(&self) -> (r: i32)
        requires
            self.wf(),
        ensures
            r == self@.position(),
    {
        self.scrollable_history() - self.view_offset() as i32
    }

    /// Put the view where a scrollbar thumb dropped it, the inverse of
    /// [`Self::scroll_position`]. A drag past either end rests at that end.
    pub fn scroll_view_to(&mut self, position: i32)
        requires
            old(self).wf(),
        ensures
            final(self)@ == old(self)@.viewed_from(position as int),
            final(self).wf(),
    {
        let history: i64 = self.scrollable_history() as i64;
        let up: i64 = history - position as i64;
        self.view_offset = if up < 0 {
            0
        } else if up < history {
            up as usize
        } else {
            history as usize
        };
    }

    /// Scroll the view up into history by `n` lines, held at the top.
    pub fn scroll_view_up(&mut self, n: usize)
        requires
            old(self).wf(),
        ensures
            final(self)@ == old(self)@.viewed_up(n as int),
            final(self).wf(),
    {
        if self.on_alt {
            return;
        }
        let len: usize = self.primary.scrollback.len();
        self.view_offset = if n < len - self.view_offset {
            self.view_offset + n
        } else {
            len
        };
    }

    /// Scroll the view back down toward the live bottom by `n` lines.
    pub fn scroll_view_down(&mut self, n: usize)
        requires
            old(self).wf(),
        ensures
            final(self)@ == old(self)@.viewed_down(n as int),
            final(self).wf(),
    {
        self.view_offset = self.view_offset.saturating_sub(n);
    }

    /// Jump the view to the oldest scrollback line.
    pub fn scroll_view_to_top(&mut self)
        requires
            old(self).wf(),
        ensures
            final(self)@ == (ScreenView {
                view_offset: if old(self)@.on_alt {
                    old(self)@.view_offset
                } else {
                    old(self)@.primary.scrollback.len() as usize
                },
                ..old(self)@
            }),
            final(self).wf(),
    {
        if !self.on_alt {
            self.view_offset = self.primary.scrollback.len();
        }
    }

    /// Pin the view back to the live bottom.
    pub fn scroll_view_to_bottom(&mut self)
        requires
            old(self).wf(),
        ensures
            final(self)@ == (ScreenView { view_offset: 0, ..old(self)@ }),
            final(self).wf(),
    {
        self.view_offset = 0;
    }

    /// Keep a scrolled-back view on the content it shows after `pushed` rows left the screen
    /// for scrollback. Output never pulls the view back to the bottom: only the user does.
    fn follow_history(&mut self, pushed: usize)
        requires
            old(self).wf(),
        ensures
            final(self)@ == old(self)@.following(pushed as int),
            final(self).wf(),
    {
        if pushed == 0 || self.view_offset == 0 {
            return;
        }
        let len: usize = self.primary.scrollback.len();
        self.view_offset = if pushed < len - self.view_offset {
            self.view_offset + pushed
        } else {
            len
        };
    }

    /// Settle what a scroll leaves behind. Every scroll goes through here.
    pub(crate) fn after_scroll(&mut self, scrolled: Scrolled)
        requires
            old(self).wf(),
        ensures
            final(self)@ == old(self)@.settled(scrolled),
            final(self).wf(),
    {
        self.follow_history(scrolled.pushed);
        if scrolled.renumbered {
            self.break_row_identity();
        }
    }

    /// End the current identity regime: the rows the outstanding ids named are gone or
    /// renumbered.
    pub(crate) fn break_row_identity(&mut self)
        requires
            old(self).wf(),
        ensures
            final(self)@ == old(self)@.identity_broken(),
            final(self).wf(),
    {
        self.epoch = self.epoch.next();
        self.prompts.clear();
    }

    fn top(&self) -> (r: usize)
        requires
            self.wf(),
        ensures
            r == self@.top_index(),
            r <= self@.active().scrollback.len(),
    {
        self.active().scrollback.len() - self.view_offset()
    }

    /// The id of the line currently shown at display `row`.
    pub fn abs_row(&self, row: usize) -> (r: AbsRow)
        requires
            self.wf(),
        ensures
            r == self@.row_id(row as int),
    {
        self.active().abs_of(self.top().saturating_add(row))
    }

    /// Where `abs` sits on screen right now, or `None` when it is not in the visible band.
    pub fn display_row(&self, abs: AbsRow) -> (r: Option<usize>)
        requires
            self.wf(),
        ensures
            r is Some <==> self@.shown_at(abs) is Some,
            r matches Some(row) ==> self@.shown_at(abs) == Some(row as int),
    {
        let b = self.active();
        match b.stream_index(abs) {
            Some(i) => {
                let top = self.top();
                if top <= i && i - top < b.rows {
                    Some(i - top)
                } else {
                    None
                }
            },
            None => None,
        }
    }

    /// Whether `abs` still names a line that exists: not yet evicted, not past the live
    /// bottom.
    pub fn row_exists(&self, abs: AbsRow) -> (r: bool)
        requires
            self.wf(),
        ensures
            r == (self@.active().id_at(0).0 <= abs.0 < self@.active().id_end().0),
    {
        let b = self.active();
        abs.0 >= b.abs_of(0).0 && abs.0 < b.abs_end().0
    }

    /// The cell at absolute `(row, col)`, blank when the row no longer exists.
    pub fn abs_cell(&self, row: AbsRow, col: usize) -> (c: Cell)
        ensures
            c == self@.named_cell(row, col as int),
    {
        row_cell(self.active().abs_row(row), col)
    }

    /// Combining marks at absolute `(row, col)`.
    pub fn abs_marks(&self, row: AbsRow, col: usize) -> (r: Vec<char>)
        ensures
            r@ == row_marks(self@.active().row_of(row), col as int),
    {
        match self.active().abs_row(row) {
            Some(line) => line.marks(col),
            None => Vec::new(),
        }
    }

    /// The row shown at display `row` honouring the scroll offset.
    pub(crate) fn view_line(&self, row: usize) -> (r: Option<&Row>)
        requires
            self.wf(),
        ensures
            r is Some <==> self@.shown_row(row as int) is Some,
            r matches Some(l) ==> self@.shown_row(row as int) == Some(l@),
    {
        let off = self.view_offset();
        if off == 0 {
            self.active().line(row)
        } else {
            self.active().view_row(row, off)
        }
    }

    /// The cell shown at display `(row, col)` honouring the scroll offset.
    pub fn view_cell(&self, row: usize, col: usize) -> (c: Cell)
        requires
            self.wf(),
        ensures
            c == self@.shown_cell(row as int, col as int),
    {
        row_cell(self.view_line(row), col)
    }

    /// Combining marks at display `(row, col)` honouring the scroll offset.
    pub fn view_marks(&self, row: usize, col: usize) -> (r: Vec<char>)
        requires
            self.wf(),
        ensures
            r@ == row_marks(self@.shown_row(row as int), col as int),
    {
        match self.view_line(row) {
            Some(line) => line.marks(col),
            None => Vec::new(),
        }
    }

    /// Whether display `(row, col)` carries any combining mark.
    pub fn view_has_marks(&self, row: usize, col: usize) -> (r: bool)
        requires
            self.wf(),
        ensures
            r == (row_marks(self@.shown_row(row as int), col as int).len() > 0),
    {
        match self.view_line(row) {
            Some(line) => line.has_marks(col),
            None => false,
        }
    }

    /// Whether absolute `row` soft-wrapped into the next one.
    pub(crate) fn wraps(&self, row: AbsRow) -> (r: bool)
        ensures
            r == self@.wraps(row),
    {
        match self.active().abs_row(row) {
            Some(line) => line.wrapped,
            None => false,
        }
    }

    /// Whether the line on the live screen at `row` soft-wrapped into the next.
    pub fn row_wraps(&self, row: usize) -> (r: bool)
        ensures
            r == (row < self@.active().lines.len() && self@.active().lines[row as int].wrapped),
    {
        match self.active().line(row) {
            Some(line) => line.wrapped,
            None => false,
        }
    }
}

impl ScreenView {
    /// Whether a named line soft-wrapped into the next one; not where it has aged out.
    pub open spec fn wraps(self, abs: AbsRow) -> bool {
        self.active().row_of(abs) matches Some(r) && r.wrapped
    }
}

/// Dropping the thumb where it already is moves nothing, and wherever it is dropped on the
/// track is where it is then found.
pub proof fn lemma_scroll_position_inverse(s: ScreenView, position: int)
    requires
        s.wf(),
    ensures
        s.viewed_from(s.position()) == s,
        0 <= position <= s.history() ==> s.viewed_from(position).position() == position,
        position < 0 ==> s.viewed_from(position).position() == 0,
        position > s.history() ==> s.viewed_from(position).position() == s.history(),
        s.viewed_from(position).wf(),
{
}

/// A display row and the id of the line on it name each other, until the id space ends.
pub proof fn lemma_display_row_inverse(s: ScreenView, row: int)
    requires
        s.wf(),
        0 <= row < s.active().rows,
        s.active().evicted + s.active().stream().len() <= u64::MAX,
    ensures
        s.shown_at(s.row_id(row)) == Some(row),
        s.active().row_of(s.row_id(row)) == s.shown_row(row),
        s.shown_row(row) is Some,
{
}

/// A view scrolled up keeps showing the same lines while output scrolls past under it, as
/// long as the history still holds them; where the oldest of them slide out, it is parked at
/// the top.
pub proof fn lemma_scrolled_view_holds(s: ScreenView, n: int, row: int)
    requires
        s.wf(),
        !s.on_alt,
        s.view_offset > 0,
        1 <= n <= s.active().rows,
        0 <= row < s.active().rows,
        s.active().evicted + 2 * MAX_SIDE <= u64::MAX,
    ensures
        ({
            let b = s.primary;
            let up = b.scrolled_up(0, b.rows - 1, n, s.blank(), true);
            let effect = b.scroll_up_effect(0, b.rows - 1, n, true);
            let t = s.with_active(up).settled(effect);
            &&& s.view_offset + n <= b.scrollback_limit ==> t.shown_row(row) == s.shown_row(row)
                && t.row_id(row) == s.row_id(row)
            &&& s.view_offset + n > b.scrollback_limit ==> t.top_index() == 0
            &&& t.epoch == s.epoch
        }),
{
    let b = s.primary;
    let up = b.scrolled_up(0, b.rows - 1, n, s.blank(), true);
    let effect = b.scroll_up_effect(0, b.rows - 1, n, true);
    let t = s.with_active(up).settled(effect);
    let all = b.scrollback + b.lines.take(n);
    let gone = up.evicted - b.evicted;
    assert(up.scrollback == keep_last(all, b.scrollback_limit as int));
    assert(up.scrollback.len() + gone == all.len());
    if s.view_offset + n <= b.scrollback_limit {
        let i = s.top_index() + row;
        assert(t.top_index() + row == i - gone);
        if i < all.len() {
            assert(up.stream()[i - gone] == up.scrollback[i - gone]);
            assert(up.scrollback[i - gone] == all[i]);
            assert(all[i] == b.stream()[i]);
        } else {
            let j = i - b.scrollback.len();
            assert(up.stream()[i - gone] == up.lines[j - n]);
            assert(b.stream()[i] == b.lines[j]);
        }
    }
}

} // verus!
