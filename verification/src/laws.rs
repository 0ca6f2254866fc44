//! What holds of the screen across operations: which names of lines stay good, and what one
//! operation takes back of another.
use vstd::prelude::*;
use crate::buffer::{least, rows_wf, side, BufferView, DEFAULT_SCROLLBACK, MAX_SIDE};
use crate::cell::{Cell, LinkId};
use crate::codec::byte_field;
use crate::color::{lemma_x11_round_trip, x11_text, Rgb};
use crate::edit::at_least_one;
use crate::ids::{lemma_epoch_moves, AbsRow};
use crate::input::KittyFlags;
use crate::links::{lemma_intern_reads_back, lemma_kept_distinct, link_id, url_of};
use crate::osc::{prompt_near, reply_close, NamedColor};
use crate::reflow::reflowed;
use crate::row::{marks_of, pair_at, CombiningMark, RowView};
use crate::screen_resize::lemma_screen_resized_wf;
use crate::screen::{ScreenView, KITTY_STACK_LIMIT};
use crate::select::{reads_before, unpadded};
use crate::text::{decimal, utf8};
use crate::vt::value_at;
use crate::width::columns;

verus! {

/// Every line that `b` names and `c` has not let go of off the front is the same line in
/// `c`. What is gone stays gone: ids are never handed out again.
pub open spec fn names_kept(b: BufferView, c: BufferView) -> bool {
    &&& b.evicted <= c.evicted
    &&& forall|abs: AbsRow| (#[trigger] b.row_of(abs)) is Some && c.evicted <= abs.0
        ==> c.row_of(abs) == b.row_of(abs)
}

/// Every line in the history of `b` that `c` has not let go of is the same line in `c`.
pub open spec fn history_kept(b: BufferView, c: BufferView) -> bool {
    &&& b.evicted <= c.evicted
    &&& b.evicted + b.scrollback.len() <= c.evicted + c.scrollback.len()
    &&& forall|i: int|
        0 <= i < b.scrollback.len() && c.evicted - b.evicted <= i ==> #[trigger] b.scrollback[i]
            == c.scrollback[i - (c.evicted - b.evicted)]
}

/// A scroll that does not report the stream as renumbered leaves every id naming the line it
/// named: a row that retires into history keeps its place in the stream.
pub proof fn lemma_scroll_keeps_names(
    b: BufferView,
    top: int,
    bottom: int,
    n: int,
    blank: Cell,
    keep: bool,
)
    requires
        b.wf(),
        0 <= top,
        0 <= n,
        b.evicted + 2 * MAX_SIDE <= u64::MAX,
        !b.scroll_up_effect(top, bottom, n, keep).renumbered,
    ensures
        names_kept(b, b.scrolled_up(top, bottom, n, blank, keep)),
{
    let c = b.scrolled_up(top, bottom, n, blank, keep);
    if top <= bottom && bottom < b.rows {
        let m = least(n, bottom - top + 1);
        if n == 0 {
            assert(c.lines =~= b.lines);
            assert(b.scrollback + b.lines.take(0) =~= b.scrollback);
        } else {
            assert(b.retires(top, keep));
            assert forall|abs: AbsRow|
                (#[trigger] b.row_of(abs)) is Some && c.evicted <= abs.0 implies c.row_of(abs)
                == b.row_of(abs) by {
                let i = abs.0 - b.evicted;
                let all = b.scrollback + b.lines.take(m);
                let gone = c.evicted - b.evicted;
                if i < all.len() {
                    assert(all[i] == b.stream()[i]);
                    assert(c.scrollback[i - gone] == all[i]);
                    assert(c.stream()[i - gone] == c.scrollback[i - gone]);
                } else {
                    let j = i - b.scrollback.len();
                    assert(b.stream()[i] == b.lines[j]);
                    assert(c.stream()[i - gone] == c.lines[j - m]);
                }
            }
        }
    }
}

/// The rows of `b` are as many as it says, its history is within its cap, and its cursor on
/// one of the rows.
pub open spec fn framed(b: BufferView) -> bool {
    &&& b.lines.len() == b.rows
    &&& b.scrollback.len() <= b.scrollback_limit
    &&& b.rows + b.scrollback_limit <= MAX_SIDE
    &&& b.cursor.row < b.rows
}

/// A cluster that can still grow is on the row the cursor was left on.
pub open spec fn anchored(s: ScreenView) -> bool {
    s.cluster_anchor matches Some(a) ==> a.row == a.after.0
}

/// Whatever a scroll does to the screen, the history behind it stays as it is.
pub proof fn lemma_scroll_keeps_history(
    b: BufferView,
    top: int,
    bottom: int,
    n: int,
    blank: Cell,
    keep: bool,
)
    requires
        framed(b),
        0 <= top,
        0 <= n,
        b.evicted + 2 * MAX_SIDE <= u64::MAX,
    ensures
        history_kept(b, b.scrolled_up(top, bottom, n, blank, keep)),
        b.scrolled_up(top, bottom, n, blank, keep).evicted <= b.evicted + n,
        history_kept(b, b.scrolled_down(top, bottom, n, blank)),
{
}

/// The screen `t` came out of `s` with every name good: in one epoch the ids name the lines
/// they named, and the history stays as it is even where the epoch moved on.
pub open spec fn lines_kept(s: ScreenView, t: ScreenView) -> bool {
    &&& t.epoch == s.epoch ==> names_kept(s.active(), t.active())
    &&& history_kept(s.active(), t.active())
    &&& t.on_alt == s.on_alt
}

proof fn lemma_region_up(s: ScreenView, b: BufferView, top: int, n: int, keep: bool)
    requires
        b.wf(),
        0 <= top,
        0 <= n,
        b.evicted + 2 * MAX_SIDE <= u64::MAX,
        b.stream() == s.active().stream(),
        b.scrollback == s.active().scrollback,
        b.evicted == s.active().evicted,
    ensures
        lines_kept(s, s.region_up(b, top, n, keep)),
        !b.scroll_up_effect(top, b.scroll_bottom as int, n, keep).renumbered ==> s.region_up(
            b,
            top,
            n,
            keep,
        ).epoch == s.epoch,
{
    let bottom = b.scroll_bottom as int;
    lemma_epoch_moves(s.epoch);
    lemma_scroll_keeps_history(b, top, bottom, n, s.blank(), keep);
    let c = b.scrolled_up(top, bottom, n, s.blank(), keep);
    if !b.scroll_up_effect(top, bottom, n, keep).renumbered {
        lemma_scroll_keeps_names(b, top, bottom, n, s.blank(), keep);
        assert forall|abs: AbsRow|
            (#[trigger] s.active().row_of(abs)) is Some && c.evicted <= abs.0 implies c.row_of(abs)
            == s.active().row_of(abs) by {
            assert(b.row_of(abs) == s.active().row_of(abs));
        }
    }
}

proof fn lemma_region_down(s: ScreenView, b: BufferView, top: int, n: int)
    requires
        b.wf(),
        0 <= top,
        0 <= n,
        b.evicted + 2 * MAX_SIDE <= u64::MAX,
        b.stream() == s.active().stream(),
        b.scrollback == s.active().scrollback,
        b.evicted == s.active().evicted,
    ensures
        lines_kept(s, s.region_down(b, top, n)),
{
    let bottom = b.scroll_bottom as int;
    lemma_epoch_moves(s.epoch);
    let c = b.scrolled_down(top, bottom, n, s.blank());
    if !b.scroll_down_effect(top, bottom, n).renumbered {
        assert(c.lines =~= b.lines);
        assert(c.stream() == b.stream());
    }
}

/// The operations that move rows end the epoch wherever they break the ids; in one epoch
/// every id that still resolves names the line it named, and history never changes.
pub proof fn lemma_moving_rows_keeps_names(s: ScreenView, n: int)
    requires
        s.wf(),
        0 <= n,
        s.active().evicted + 2 * MAX_SIDE <= u64::MAX,
    ensures
        lines_kept(s, s.line_fed()),
        lines_kept(s, s.reverse_indexed()),
        lines_kept(s, s.scrolled_up(n)),
        lines_kept(s, s.scrolled_down(n)),
        lines_kept(s, s.lines_inserted(n)),
        lines_kept(s, s.lines_deleted(n)),
{
    let b = s.active();
    let u = b.unwrapped();
    lemma_region_up(s, u, u.scroll_top as int, 1, u.scroll_top == 0);
    lemma_region_down(s, u, u.scroll_top as int, 1);
    lemma_region_up(s, b, b.scroll_top as int, at_least_one(n), b.scroll_top == 0);
    lemma_region_down(s, b, b.scroll_top as int, at_least_one(n));
    lemma_region_down(s, b, b.cursor.row as int, at_least_one(n));
    lemma_region_up(s, b, b.cursor.row as int, at_least_one(n), false);
}

/// Ordinary output does not end the epoch: a line feed with the whole screen as its region
/// keeps it wherever there is a history to retire into.
pub proof fn lemma_output_keeps_the_epoch(s: ScreenView)
    requires
        s.wf(),
        s.active().scrollback_limit > 0,
        s.active().scroll_top == 0,
        s.active().scroll_bottom == s.active().rows - 1,
    ensures
        s.line_fed().epoch == s.epoch,
        s.line_fed().prompts == s.prompts,
        s.line_fed().active().scroll_top == 0,
        s.line_fed().active().scroll_bottom == s.line_fed().active().rows - 1,
        s.line_fed().active().scrollback_limit == s.active().scrollback_limit,
{
}

/// What printing leaves alone: `t` has the history of `s`, at most `k` lines further on, and
/// where the whole screen scrolls and there is a history to retire into, the epoch and the
/// prompt marks of `s` too.
pub open spec fn output_kept(s: ScreenView, t: ScreenView, k: int) -> bool {
    &&& t.on_alt == s.on_alt
    &&& framed(t.active())
    &&& anchored(t)
    &&& history_kept(s.active(), t.active())
    &&& t.active().evicted <= s.active().evicted + k
    &&& t.active().rows == s.active().rows
    &&& t.active().scrollback_limit == s.active().scrollback_limit
    &&& t.active().scroll_top == s.active().scroll_top
    &&& t.active().scroll_bottom == s.active().scroll_bottom
    &&& whole_screen(s) ==> t.epoch == s.epoch && t.prompts == s.prompts
}

/// The region is the whole screen and there is a history.
pub open spec fn whole_screen(s: ScreenView) -> bool {
    &&& s.active().scrollback_limit > 0
    &&& s.active().scroll_top == 0
    &&& s.active().scroll_bottom == s.active().rows - 1
}

proof fn lemma_output_join(s: ScreenView, t: ScreenView, u: ScreenView, j: int, k: int)
    requires
        output_kept(s, t, j),
        output_kept(t, u, k),
    ensures
        output_kept(s, u, j + k),
{
    let (a, b, c) = (s.active(), t.active(), u.active());
    assert forall|i: int|
        0 <= i < a.scrollback.len() && c.evicted - a.evicted <= i implies #[trigger] a.scrollback[i]
        == c.scrollback[i - (c.evicted - a.evicted)] by {
        let m = i - (b.evicted - a.evicted);
        assert(a.scrollback[i] == b.scrollback[m]);
        assert(b.scrollback[m] == c.scrollback[m - (c.evicted - b.evicted)]);
    }
}

proof fn lemma_wrapped_line_kept(s: ScreenView)
    requires
        framed(s.active()),
        anchored(s),
        s.active().evicted + 2 * MAX_SIDE <= u64::MAX,
    ensures
        output_kept(s, s.wrapped_line(), 1),
{
    reveal(ScreenView::wrapped_line);
    let b = s.active();
    let row = b.cursor.row as int;
    let w = b.with_line(row, RowView { wrapped: true, ..b.lines[row] });
    let u = w.unwrapped();
    lemma_scroll_keeps_history(
        u,
        u.scroll_top as int,
        u.scroll_bottom as int,
        1,
        s.blank(),
        u.scroll_top == 0,
    );
}

proof fn lemma_width_kept(s: ScreenView, c: char, w: int)
    requires
        framed(s.active()),
        anchored(s),
        s.active().evicted + 2 * MAX_SIDE + 1 <= u64::MAX,
    ensures
        output_kept(s, s.printed_width(c, w), 2),
{
    if w != 0 {
        let t = s.unparked();
        if s.active().cursor.pending_wrap {
            lemma_wrapped_line_kept(s);
        }
        assert(output_kept(s, t, 1));
        let r = s.room_for(w);
        if w == 2 && t.active().cursor.col + 1 >= t.active().cols && t.modes.autowrap {
            lemma_wrapped_line_kept(t);
        }
        assert(output_kept(t, r, 1));
        lemma_output_join(s, t, r, 1, 1);
        assert(output_kept(r, r.placed(c, w), 0));
        lemma_output_join(s, r, r.placed(c, w), 2, 0);
    }
}

proof fn lemma_scalar_kept(s: ScreenView, c: char)
    requires
        framed(s.active()),
        anchored(s),
        s.active().evicted + 2 * MAX_SIDE + 1 <= u64::MAX,
    ensures
        output_kept(s, s.printed(c), 2),
{
    reveal(ScreenView::printed);
    if !s.modes.grapheme_clustering {
        lemma_width_kept(s, c, columns(c) as int);
    } else if s.joins(c) {
    } else {
        lemma_width_kept(s.classed(c), c, columns(c) as int);
        lemma_output_join(s, s.classed(c), s.printed(c), 0, 2);
    }
}

/// A line in history outlives whatever is printed after it: it keeps its id and its text for
/// as long as the history holds it. While the whole screen scrolls, printing keeps the epoch
/// and the prompt marks as well, so whatever is anchored to a line stays where it is.
pub proof fn lemma_printing_keeps_history(s: ScreenView, chars: Seq<char>)
    requires
        s.wf(),
        s.active().evicted + 2 * MAX_SIDE + 2 * chars.len() + 1 <= u64::MAX,
    ensures
        output_kept(s, s.printed_all(chars), 2 * chars.len() as int),
    decreases chars.len(),
{
    if chars.len() > 0 {
        let t = s.printed_all(chars.drop_last());
        lemma_printing_keeps_history(s, chars.drop_last());
        lemma_scalar_kept(t, chars.last());
        lemma_output_join(s, t, s.printed_all(chars), 2 * (chars.len() - 1), 2);
    }
}

/// Dropping the history drops nothing else: the live rows keep the ids they had.
pub proof fn lemma_cleared_history_keeps_names(b: BufferView)
    requires
        b.wf(),
        b.evicted + 2 * MAX_SIDE <= u64::MAX,
    ensures
        names_kept(b, b.without_history()),
{
    let c = b.without_history();
    assert forall|abs: AbsRow|
        (#[trigger] b.row_of(abs)) is Some && c.evicted <= abs.0 implies c.row_of(abs) == b.row_of(
        abs,
    ) by {
        let i = abs.0 - c.evicted;
        assert(c.stream()[i] == b.stream()[abs.0 - b.evicted]);
    }
}

// ---- selections --------------------------------------------------------------------------------

proof fn lemma_selected_rows_kept(
    s: ScreenView,
    t: ScreenView,
    row: int,
    end: int,
    a: (AbsRow, usize),
    b: (AbsRow, usize),
)
    requires
        0 <= row,
        end <= u64::MAX,
        t.active().cols == s.active().cols,
        forall|r: AbsRow|
            row <= r.0 <= end ==> #[trigger] t.active().row_of(r) == s.active().row_of(r),
    ensures
        t.selected_rows(row, end, a, b) == s.selected_rows(row, end, a, b),
    decreases end - row + 1,
{
    if row <= end {
        let abs = AbsRow(row as u64);
        assert(t.active().row_of(abs) == s.active().row_of(abs));
        lemma_selected_rows_kept(s, t, row + 1, end, a, b);
    }
}

/// A selection reads the same for as long as the lines it names are the lines they were,
/// wherever they have moved to in the meantime.
pub proof fn lemma_selection_survives(
    s: ScreenView,
    t: ScreenView,
    a: (AbsRow, usize),
    b: (AbsRow, usize),
)
    requires
        reads_before(a, b),
        t.active().cols == s.active().cols,
        s.active().evicted <= a.0.0,
        t.active().evicted <= a.0.0,
        b.0.0 < s.active().id_end().0,
        b.0.0 < t.active().id_end().0,
        forall|r: AbsRow|
            a.0.0 <= r.0 <= b.0.0 ==> #[trigger] t.active().row_of(r) == s.active().row_of(r),
    ensures
        t.selection(a, b) == s.selection(a, b),
{
    lemma_selected_rows_kept(s, t, a.0.0 as int, b.0.0 as int, a, b);
}

/// How many newlines a text has.
pub open spec fn newlines(text: Seq<char>) -> nat
    decreases text.len(),
{
    if text.len() == 0 {
        0
    } else {
        newlines(text.drop_last()) + (if text.last() == '\n' {
            1nat
        } else {
            0
        })
    }
}

/// No line of the text ends in a space.
pub open spec fn trimmed_lines(text: Seq<char>) -> bool {
    forall|i: int|
        0 <= i < text.len() && #[trigger] text[i] == ' ' ==> i + 1 < text.len() && text[i + 1]
            != '\n'
}

/// None of the row's characters is a newline.
pub open spec fn unbroken(row: RowView) -> bool {
    &&& forall|j: int| 0 <= j < row.cells.len() ==> (#[trigger] row.cells[j]).rune != '\n'
    &&& forall|k: int| 0 <= k < row.marks.len() ==> (#[trigger] row.marks[k]).ch != '\n'
}

impl ScreenView {
    /// How many of the rows `row` to `end` end their line, the last left out.
    pub open spec fn hard_breaks(self, row: int, end: int) -> nat
        decreases end - row,
    {
        if row >= end {
            0
        } else {
            self.hard_breaks(row + 1, end) + (if self.wraps(AbsRow(row as u64)) {
                0nat
            } else {
                1
            })
        }
    }

    /// The rows a selection between two cells takes, first and last, of those that still
    /// exist.
    pub open spec fn selected_span(self, a: (AbsRow, usize), b: (AbsRow, usize)) -> (int, int) {
        let (start, end) = if reads_before(a, b) {
            (a, b)
        } else {
            (b, a)
        };
        let first = self.active().id_at(0).0;
        (
            if start.0.0 < first {
                first as int
            } else {
                start.0.0 as int
            },
            least(end.0.0 as int, self.active().id_end().0 - 1),
        )
    }
}

proof fn lemma_newlines_join(a: Seq<char>, b: Seq<char>)
    ensures
        newlines(a + b) == newlines(a) + newlines(b),
    decreases b.len(),
{
    if b.len() == 0 {
        assert(a + b =~= a);
    } else {
        assert((a + b).drop_last() =~= a + b.drop_last());
        lemma_newlines_join(a, b.drop_last());
    }
}

proof fn lemma_no_newlines(text: Seq<char>)
    requires
        forall|i: int| 0 <= i < text.len() ==> #[trigger] text[i] != '\n',
    ensures
        newlines(text) == 0,
    decreases text.len(),
{
    if text.len() > 0 {
        lemma_no_newlines(text.drop_last());
    }
}

proof fn lemma_unbroken_marks(marks: Seq<CombiningMark>, col: int)
    requires
        forall|k: int| 0 <= k < marks.len() ==> (#[trigger] marks[k]).ch != '\n',
    ensures
        forall|i: int| 0 <= i < marks_of(marks, col).len() ==> #[trigger] marks_of(marks, col)[i]
            != '\n',
    decreases marks.len(),
{
    if marks.len() > 0 {
        let init = marks.drop_last();
        assert forall|k: int| 0 <= k < init.len() implies (#[trigger] init[k]).ch != '\n' by {
            assert(init[k] == marks[k]);
        }
        assert(marks[marks.len() - 1].ch != '\n');
        lemma_unbroken_marks(init, col);
        let rest = marks_of(init, col);
        let all = marks_of(marks, col);
        assert forall|i: int| 0 <= i < all.len() implies #[trigger] all[i] != '\n' by {
            if i < rest.len() {
                assert(all[i] == rest[i]);
            }
        }
    }
}

proof fn lemma_unbroken_text(row: RowView, from: int, to: int)
    requires
        unbroken(row),
        0 <= from,
    ensures
        forall|i: int| 0 <= i < row.text(from, to).len() ==> #[trigger] row.text(from, to)[i]
            != '\n',
    decreases to - from,
{
    if from < to {
        lemma_unbroken_text(row, from, to - 1);
        lemma_unbroken_marks(row.marks, to - 1);
        let before = row.text(from, to - 1);
        let own = marks_of(row.marks, to - 1);
        let text = row.text(from, to);
        assert forall|i: int| 0 <= i < text.len() implies #[trigger] text[i] != '\n' by {
            if i < before.len() {
                assert(text[i] == before[i]);
            } else if i == before.len() {
                assert(to - 1 < row.cells.len() ==> row.cells[to - 1].rune != '\n');
            } else {
                assert(text[i] == own[i - before.len() - 1]);
            }
        }
    }
}

/// Dropping the spaces at the end leaves a start of the text that does not end in one.
proof fn lemma_unpadded(text: Seq<char>)
    ensures
        unpadded(text).len() <= text.len(),
        unpadded(text) == text.take(unpadded(text).len() as int),
        unpadded(text).len() > 0 ==> unpadded(text).last() != ' ',
    decreases text.len(),
{
    if text.len() > 0 && text.last() == ' ' {
        lemma_unpadded(text.drop_last());
        let n = unpadded(text).len() as int;
        assert(text.drop_last().take(n) =~= text.take(n));
    } else {
        assert(text.take(text.len() as int) =~= text);
    }
}

proof fn lemma_selected_row_shape(
    s: ScreenView,
    row: AbsRow,
    a: (AbsRow, usize),
    b: (AbsRow, usize),
)
    requires
        s.active().row_of(row) matches Some(r) ==> unbroken(r),
    ensures
        ({
            let text = s.selected_row(row, a, b);
            &&& newlines(text) == 0
            &&& trimmed_lines(text)
            &&& text.len() > 0 ==> text.last() != ' '
        }),
{
    let text = s.selected_row(row, a, b);
    if let Some(r) = s.active().row_of(row) {
        let last = s.active().cols - 1;
        let from = if row == a.0 {
            a.1 as int
        } else {
            0
        };
        let to = if row == b.0 {
            least(b.1 as int, last)
        } else {
            last
        };
        lemma_unbroken_text(r, from, to + 1);
        lemma_unpadded(r.text(from, to + 1));
        assert(forall|i: int| 0 <= i < text.len() ==> #[trigger] text[i] != '\n');
        lemma_no_newlines(text);
        assert forall|i: int| 0 <= i < text.len() && #[trigger] text[i] == ' ' implies i + 1
            < text.len() && text[i + 1] != '\n' by {
            if i + 1 == text.len() {
                assert(text[i] == text.last());
            }
        }
    }
}

proof fn lemma_selected_rows_shape(
    s: ScreenView,
    row: int,
    end: int,
    a: (AbsRow, usize),
    b: (AbsRow, usize),
)
    requires
        0 <= row,
        end <= u64::MAX,
        forall|r: AbsRow|
            row <= r.0 <= end ==> ((#[trigger] s.active().row_of(r)) matches Some(w)
                ==> unbroken(w)),
    ensures
        ({
            let text = s.selected_rows(row, end, a, b);
            &&& newlines(text) == s.hard_breaks(row, end)
            &&& trimmed_lines(text)
        }),
    decreases end - row + 1,
{
    if row <= end {
        let abs = AbsRow(row as u64);
        assert(s.active().row_of(abs) matches Some(w) ==> unbroken(w));
        let own = s.selected_row(abs, a, b);
        let ending = if row != end && !s.wraps(abs) {
            seq!['\n']
        } else {
            Seq::empty()
        };
        let rest = s.selected_rows(row + 1, end, a, b);
        let text = s.selected_rows(row, end, a, b);
        assert(text == own + ending + rest);
        lemma_selected_row_shape(s, abs, a, b);
        lemma_selected_rows_shape(s, row + 1, end, a, b);
        lemma_newlines_join(own, ending);
        lemma_newlines_join(own + ending, rest);
        assert(ending.len() > 0 ==> ending.drop_last() =~= Seq::<char>::empty());
        assert(newlines(ending) == ending.len()) by {
            reveal_with_fuel(newlines, 3);
        }
        let n = (own + ending).len() as int;
        assert forall|i: int| 0 <= i < text.len() && #[trigger] text[i] == ' ' implies i + 1
            < text.len() && text[i + 1] != '\n' by {
            if i < own.len() {
                assert(own[i] == ' ');
                assert(text[i + 1] == own[i + 1]);
            } else if i < n {
                assert(text[i] == ending[i - own.len()]);
            } else {
                assert(rest[i - n] == ' ');
                assert(text[i + 1] == rest[i + 1 - n]);
            }
        }
    }
}

/// The text of a selection: it has a newline for every row but the last that ends its line,
/// and none where a row soft-wraps; no line of it ends in a space; and it reads the same from
/// either end and wherever the view stands.
pub proof fn lemma_selection_reads_as_lines(
    s: ScreenView,
    a: (AbsRow, usize),
    b: (AbsRow, usize),
    view_offset: usize,
)
    requires
        forall|r: AbsRow|
            s.selected_span(a, b).0 <= r.0 <= s.selected_span(a, b).1 ==> ((
            #[trigger] s.active().row_of(r)) matches Some(w) ==> unbroken(w)),
    ensures
        ({
            let (row, end) = s.selected_span(a, b);
            &&& newlines(s.selection(a, b)) == s.hard_breaks(row, end)
            &&& trimmed_lines(s.selection(a, b))
            &&& s.selection(b, a) == s.selection(a, b)
            &&& (ScreenView { view_offset, ..s }).selection(a, b) == s.selection(a, b)
        }),
{
    let (row, end) = s.selected_span(a, b);
    let (start, stop) = if reads_before(a, b) {
        (a, b)
    } else {
        (b, a)
    };
    lemma_selected_rows_shape(s, row, end, start, stop);
    lemma_selected_rows_kept(s, ScreenView { view_offset, ..s }, row, end, start, stop);
    if reads_before(a, b) && reads_before(b, a) {
        assert(a == b);
    }
}

proof fn lemma_word_left(s: ScreenView, row: AbsRow, col: int)
    requires
        0 <= col,
    ensures
        0 <= s.word_start(row, col) <= col,
        forall|c: int| s.word_start(row, col) <= c < col ==> #[trigger] s.in_word(row, c),
        s.word_start(row, col) == 0 || !s.in_word(row, s.word_start(row, col) - 1),
    decreases col,
{
    if col > 0 && s.in_word(row, col - 1) {
        lemma_word_left(s, row, col - 1);
    }
}

proof fn lemma_word_right(s: ScreenView, row: AbsRow, col: int)
    requires
        col < s.active().cols,
    ensures
        col <= s.word_end(row, col) < s.active().cols,
        forall|c: int| col < c <= s.word_end(row, col) ==> #[trigger] s.in_word(row, c),
        s.word_end(row, col) + 1 == s.active().cols || !s.in_word(row, s.word_end(row, col) + 1),
    decreases s.active().cols - col,
{
    if col + 1 < s.active().cols && s.in_word(row, col + 1) {
        lemma_word_right(s, row, col + 1);
    }
}

/// The word at a cell is the whole run of word cells through it, and no cell more.
pub proof fn lemma_word_is_maximal(s: ScreenView, row: AbsRow, col: int)
    requires
        0 <= col < s.active().cols,
    ensures
        0 <= s.word_start(row, col) <= col <= s.word_end(row, col) < s.active().cols,
        forall|c: int|
            s.word_start(row, col) <= c <= s.word_end(row, col) && c != col ==> #[trigger] s.in_word(
                row,
                c,
            ),
        s.word_start(row, col) == 0 || !s.in_word(row, s.word_start(row, col) - 1),
        s.word_end(row, col) + 1 == s.active().cols || !s.in_word(row, s.word_end(row, col) + 1),
{
    lemma_word_left(s, row, col);
    lemma_word_right(s, row, col);
}

/// The logical line through a row is the whole run of rows that wrap into one another, and
/// no row more.
pub proof fn lemma_line_is_maximal(s: ScreenView, row: int)
    requires
        s.active().id_at(0).0 <= row < s.active().id_end().0,
    ensures
        s.active().id_at(0).0 <= s.line_start(row) <= row <= s.line_end(row)
            < s.active().id_end().0,
        forall|r: AbsRow| s.line_start(row) <= r.0 < s.line_end(row) ==> #[trigger] s.wraps(r),
        s.line_start(row) == s.active().id_at(0).0 || !s.wraps(
            AbsRow((s.line_start(row) - 1) as u64),
        ),
        s.line_end(row) + 1 == s.active().id_end().0 || !s.wraps(AbsRow(s.line_end(row) as u64)),
{
    lemma_line_up(s, row);
    lemma_line_down(s, row);
}

proof fn lemma_line_up(s: ScreenView, row: int)
    requires
        s.active().id_at(0).0 <= row < s.active().id_end().0,
    ensures
        s.active().id_at(0).0 <= s.line_start(row) <= row,
        forall|r: AbsRow| s.line_start(row) <= r.0 < row ==> #[trigger] s.wraps(r),
        s.line_start(row) == s.active().id_at(0).0 || !s.wraps(
            AbsRow((s.line_start(row) - 1) as u64),
        ),
    decreases row,
{
    if row <= 0 || row <= s.active().id_at(0).0 || !s.wraps(AbsRow((row - 1) as u64)) {
    } else {
        lemma_line_up(s, row - 1);
        assert forall|r: AbsRow| s.line_start(row) <= r.0 < row implies #[trigger] s.wraps(r) by {
            assert(r.0 < row - 1 || r == AbsRow((row - 1) as u64));
        }
    }
}

proof fn lemma_line_down(s: ScreenView, row: int)
    requires
        s.active().id_at(0).0 <= row < s.active().id_end().0,
    ensures
        row <= s.line_end(row) < s.active().id_end().0,
        forall|r: AbsRow| row <= r.0 < s.line_end(row) ==> #[trigger] s.wraps(r),
        s.line_end(row) + 1 == s.active().id_end().0 || !s.wraps(AbsRow(s.line_end(row) as u64)),
    decreases s.active().id_end().0 - row,
{
    if row + 1 >= s.active().id_end().0 || !s.wraps(AbsRow(row as u64)) {
    } else {
        lemma_line_down(s, row + 1);
        assert forall|r: AbsRow| row <= r.0 < s.line_end(row) implies #[trigger] s.wraps(r) by {
            assert(r.0 >= row + 1 || r == AbsRow(row as u64));
        }
    }
}

// ---- what is set is what is told -----------------------------------------------------------------

/// A palette entry that was set is the entry a query is answered with, to the byte.
pub proof fn lemma_palette_reads_back(s: ScreenView, index: Seq<u8>, color: Rgb, bel: bool)
    requires
        s.theme.palette.len() == 256,
        byte_field(index) is Some,
    ensures
        ({
            let i = byte_field(index)->0;
            let t = s.entry_asked(index, x11_text(color), bel);
            &&& t.theme == s.theme.with_entry(i, color)
            &&& t.responses == s.responses
            &&& t.entry_asked(index, utf8("?"@), bel) == t.responding(
                utf8("\x1b]4;"@) + decimal(i as nat) + utf8(";"@) + x11_text(color) + reply_close(
                    bel,
                ),
            )
        }),
{
    lemma_x11_round_trip(color);
    lemma_color_is_no_query(color);
}

/// A named colour that was set is the colour a query is answered with, to the byte.
pub proof fn lemma_named_color_reads_back(s: ScreenView, which: NamedColor, color: Rgb, bel: bool)
    ensures
        ({
            let t = s.color_asked(which, x11_text(color), bel);
            &&& t.theme == s.theme.with_named(which, color)
            &&& t.responses == s.responses
            &&& t.color_asked(which, utf8("?"@), bel) == t.responding(
                utf8("\x1b]"@) + decimal(which.number()) + utf8(";"@) + x11_text(color)
                    + reply_close(bel),
            )
        }),
{
    lemma_x11_round_trip(color);
    lemma_color_is_no_query(color);
}

proof fn lemma_color_is_no_query(color: Rgb)
    ensures
        x11_text(color) != utf8("?"@),
{
    reveal_strlit("?");
    assert(vstd::utf8::is_ascii_chars("?"@));
    vstd::utf8::is_ascii_chars_encode_utf8("?"@);
    assert(utf8("?"@).len() == 1);
    assert(x11_text(color).len() > 1);
}

/// The position a report gives is the one the cursor was sent to, whatever the origin, where
/// that is on the screen or in the region.
pub proof fn lemma_position_reads_back(s: ScreenView, row: int, col: int)
    requires
        s.wf(),
        0 <= row,
        0 <= col < s.active().cols,
        s.modes.origin_mode ==> s.active().scroll_top + row <= s.active().scroll_bottom,
        !s.modes.origin_mode ==> row < s.active().rows,
    ensures
        s.moved_to(row, col).reported_position() == (row + 1, col + 1),
{
}

/// A scroll region that is told and set again is the region it was.
pub proof fn lemma_region_reads_back(b: BufferView, c: BufferView)
    requires
        b.wf(),
        c.rows == b.rows,
        b.scroll_top < b.scroll_bottom || b.rows == 1,
    ensures
        c.with_region(b.scroll_top as int, b.scroll_bottom as int).scroll_top == b.scroll_top,
        c.with_region(b.scroll_top as int, b.scroll_bottom as int).scroll_bottom
            == b.scroll_bottom,
{
}

/// A program that pushes its keyboard flags and pops them leaves the ones that were in force,
/// as long as the stack had room.
pub proof fn lemma_kitty_push_pop(s: ScreenView, push: Seq<Seq<u16>>, pop: Seq<Seq<u16>>)
    requires
        s.kitty_stack.len() < KITTY_STACK_LIMIT,
        value_at(pop, 0) <= 1,
    ensures
        s.kitty_asked(push, 62).kitty() == KittyFlags::granted(value_at(push, 0)),
        s.kitty_asked(push, 62).kitty_asked(pop, 60) == s,
{
    let t = s.kitty_asked(push, 62).kitty_asked(pop, 60);
    assert(t.kitty_stack =~= s.kitty_stack);
}

/// The pen inside a hyperlink cites an id that reads back as its target, and every id handed
/// out before reads as it did. Where every id was taken the dead ones are collected first, and
/// the pen is inside no link only if that freed none.
pub proof fn lemma_hyperlink_reads_back(s: ScreenView, url: Seq<char>)
    requires
        s.wf(),
    ensures
        s.linked(url).pen.link != LinkId(0) ==> url_of(s.linked(url).links, s.linked(url).pen.link)
            == Some(url),
        s.linked(url).pen.link == LinkId(0) ==> link_id(s.links, url) is None && link_id(
            s.links_collected().links,
            url,
        ) is None,
        link_id(s.links, url) is Some ==> forall|id: LinkId|
            (#[trigger] url_of(s.links, id)) is Some ==> url_of(s.linked(url).links, id) == url_of(
                s.links,
                id,
            ),
{
    let c = s.links_collected();
    lemma_kept_distinct(s.links, s.live_links(), s.links.len() as int);
    if link_id(s.links, url) is Some {
        lemma_intern_reads_back(s.links, url, LinkId(0));
        assert forall|id: LinkId| (#[trigger] url_of(s.links, id)) is Some implies url_of(
            s.linked(url).links,
            id,
        ) == url_of(s.links, id) by {
            lemma_intern_reads_back(s.links, url, id);
        }
    } else if link_id(c.links, url) is Some {
        lemma_intern_reads_back(c.links, url, LinkId(0));
    }
}

/// Jumping to a prompt puts its line at the top of the view, or leaves the view at the live
/// screen where the prompt is on it.
pub proof fn lemma_prompt_is_shown(s: ScreenView, backward: bool)
    requires
        s.wf(),
        !s.on_alt,
        s.prompt_target(backward) matches Some(i) && i < s.active().stream().len(),
    ensures
        ({
            let row = prompt_near(s.prompts, s.row_id(0), backward)->0;
            let i = s.prompt_target(backward)->0;
            let t = s.viewed_at_prompt(backward);
            &&& t.wf()
            &&& i <= s.active().scrollback.len() ==> t.shown_at(row) == Some(0int)
            &&& i > s.active().scrollback.len() ==> t.view_offset == 0 && t.shown_at(row) == Some(
                i - s.active().scrollback.len(),
            )
        }),
{
}

// ---- resizes -----------------------------------------------------------------------------------------

/// What a resize comes to: both screens have the new size, at least one cell each way, with
/// the whole screen as the scroll region and the cursor inside; every row has the new width and
/// no half of a wide character stands alone; the history is within its cap, and the tab stops
/// there were are as they were. The epoch goes on only where the ids do, on the primary at an
/// unchanged width; on the alternate screen the prompt marks end with it.
pub proof fn lemma_resize_reshapes(s: ScreenView, cols: usize, rows: usize)
    requires
        s.wf(),
        cols <= MAX_SIDE,
        rows + DEFAULT_SCROLLBACK < MAX_SIDE,
        rows + s.primary.scrollback_limit < MAX_SIDE,
    ensures
        s.resized(cols, rows).wf(),
        reshaped(s.primary, s.resized(cols, rows).primary, side(cols), side(rows)),
        reshaped(s.alt, s.resized(cols, rows).alt, side(cols), side(rows)),
        s.resized(cols, rows).on_alt == s.on_alt,
        s.on_alt ==> s.resized(cols, rows).prompts.len() == 0,
        s.resized(cols, rows).epoch == s.epoch <==> !s.on_alt && side(cols) == s.primary.cols,
{
    reveal(ScreenView::primary_resized);
    lemma_screen_resized_wf(s, cols, rows);
    lemma_epoch_moves(s.epoch);
    lemma_resized_shape(s.alt, side(cols), side(rows));
    lemma_resized_shape(s.primary, side(cols), side(rows));
    lemma_reflowed_shape(s.primary, side(cols), side(rows), s.frozen_from());
    let t = s.resized(cols, rows);
    lemma_rows_shape(t.primary.lines, t.primary.cols as int);
    lemma_rows_shape(t.primary.scrollback, t.primary.cols as int);
    lemma_rows_shape(t.alt.lines, t.alt.cols as int);
    lemma_rows_shape(t.alt.scrollback, t.alt.cols as int);
}

/// Every row is `cols` wide, and none has half a wide character without the other.
pub open spec fn rows_whole(rows: Seq<RowView>, cols: int) -> bool {
    forall|i: int, j: int|
        0 <= i < rows.len() && 0 <= j < cols ==> rows[i].cells.len() == cols && #[trigger] pair_at(
            rows[i].cells,
            j,
        )
}

/// The buffer `c` is the buffer `b` at a new size.
pub open spec fn reshaped(b: BufferView, c: BufferView, cols: usize, rows: usize) -> bool {
    &&& c.cols == cols
    &&& c.rows == rows
    &&& c.lines.len() == rows
    &&& c.cursor.row < rows
    &&& c.cursor.col < cols
    &&& c.scroll_top == 0
    &&& c.scroll_bottom == rows - 1
    &&& c.scrollback_limit == b.scrollback_limit
    &&& c.scrollback.len() <= c.scrollback_limit
    &&& rows_whole(c.lines, cols as int)
    &&& rows_whole(c.scrollback, cols as int)
    &&& c.tabs.len() >= b.tabs.len()
    &&& c.tabs.take(b.tabs.len() as int) == b.tabs
}

proof fn lemma_rows_shape(rows: Seq<RowView>, cols: int)
    requires
        rows_wf(rows, cols),
    ensures
        rows_whole(rows, cols),
{
    assert forall|i: int, j: int| 0 <= i < rows.len() && 0 <= j < cols implies rows[i].cells.len()
        == cols && #[trigger] pair_at(rows[i].cells, j) by {
        assert(rows[i].wf(cols));
    }
}

proof fn lemma_resized_shape(b: BufferView, cols: usize, rows: usize)
    requires
        1 <= cols,
        1 <= rows,
    ensures
        ({
            let c = b.resized(cols, rows);
            &&& c.cols == cols
            &&& c.rows == rows
            &&& c.scroll_top == 0
            &&& c.scroll_bottom == rows - 1
            &&& c.scrollback_limit == b.scrollback_limit
            &&& c.tabs.len() >= b.tabs.len()
            &&& c.tabs.take(b.tabs.len() as int) == b.tabs
        }),
{
    let c = b.resized(cols, rows);
    assert(c.tabs.take(b.tabs.len() as int) =~= b.tabs);
}

proof fn lemma_reflowed_shape(b: BufferView, cols: usize, rows: usize, frozen_from: int)
    requires
        1 <= cols,
        1 <= rows,
    ensures
        ({
            let c = reflowed(b, cols, rows, frozen_from);
            &&& c.cols == cols
            &&& c.rows == rows
            &&& c.scroll_top == 0
            &&& c.scroll_bottom == rows - 1
            &&& c.scrollback_limit == b.scrollback_limit
            &&& c.tabs.len() >= b.tabs.len()
            &&& c.tabs.take(b.tabs.len() as int) == b.tabs
        }),
{
    let c = reflowed(b, cols, rows, frozen_from);
    assert(c.tabs.take(b.tabs.len() as int) =~= b.tabs);
}

/// A whole display erased is blank in the pen's background and in no link.
pub proof fn lemma_erased_display_is_blank(s: ScreenView, row: int, col: int)
    requires
        s.wf(),
        0 <= row < s.active().rows,
        0 <= col < s.active().cols,
    ensures
        s.display_erased(2).active().cell_at(row, col) == s.blank(),
        s.blank().link == LinkId(0),
        s.blank().bg == s.pen.bg,
        s.display_erased(2).epoch == s.epoch.succ(),
{
}

/// Where the content goes wholesale, or the lines are laid out anew, the epoch ends: a reset,
/// a change of screens, and a new width. A change of height alone keeps it on the primary.
pub proof fn lemma_upheavals_end_the_epoch(s: ScreenView, cols: usize, rows: usize)
    requires
        s.wf(),
    ensures
        s.hard_reset().epoch != s.epoch,
        s.switched(!s.on_alt).epoch != s.epoch,
        s.switched(s.on_alt) == s,
        s.resized(cols, rows).epoch == s.epoch <==> !s.on_alt && side(cols) == s.primary.cols,
{
    reveal(ScreenView::switched);
    lemma_epoch_moves(s.epoch);
}

} // verus!
