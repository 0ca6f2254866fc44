//! What the sequences that move whole rows do to the screen, row by row.
use vstd::prelude::*;
use crate::attrs::Attrs;
use crate::buffer::{least, BufferView, Scrolled};
use crate::cell::{Cell, Cursor, LinkId};
use crate::color::Color;
use crate::dispatch_laws::{
    control, csi, esc, lemma_controls, lemma_csi_edits, lemma_escapes, steps,
};
use crate::row::RowView;
use crate::screen::ScreenView;

verus! {

/// Nothing but the buffer in front differs.
pub open spec fn front_only(s: ScreenView, t: ScreenView) -> bool {
    &&& t == (ScreenView { primary: t.primary, alt: t.alt, ..s })
    &&& s.on_alt ==> t.primary == s.primary
    &&& !s.on_alt ==> t.alt == s.alt
}

/// Nothing but the rows on the screen and the cursor differ.
pub open spec fn rows_only(b: BufferView, c: BufferView) -> bool {
    &&& c == (BufferView { lines: c.lines, cursor: c.cursor, ..b })
    &&& c.lines.len() == b.lines.len()
}

/// A space in a background, with nothing else to it.
pub open spec fn space_on(bg: Color) -> Cell {
    Cell { rune: ' ', fg: Color::Default, bg, attrs: Attrs(0), link: LinkId(0) }
}

/// A row of nothing but spaces in a background, without marks, the line ending in it.
pub open spec fn empty_row(r: RowView, cols: int, bg: Color) -> bool {
    &&& r.cells.len() == cols
    &&& forall|j: int| 0 <= j < cols ==> #[trigger] r.cells[j] == space_on(bg)
    &&& r.marks.len() == 0
    &&& !r.wrapped
}

/// The smaller of two numbers.
pub open spec fn lesser(a: int, b: int) -> int {
    if a <= b {
        a
    } else {
        b
    }
}

/// How many rows or cells a count asks for: at least one, and no more than there are.
pub open spec fn asked(n: int, most: int) -> int {
    lesser(
        if n < 1 {
            1
        } else {
            n
        },
        most,
    )
}

/// Inserting lines: inside the scroll region the rows from the cursor down to the bottom
/// margin move down by the count, blank rows open at the cursor, and every other row stays.
/// Outside the region nothing happens. The cursor goes to the first column.
pub proof fn lemma_lines_inserted(s: ScreenView, n: int)
    requires
        s.wf(),
        n >= 0,
    ensures
        ({
            let b = s.active();
            let t = s.lines_inserted(n);
            let c = t.active();
            let (row, bottom) = (b.cursor.row as int, b.scroll_bottom as int);
            let m = asked(n, bottom - row + 1);
            if b.scroll_top <= row <= bottom {
                &&& rows_only(b, c)
                &&& forall|i: int|
                    row <= i < row + m ==> empty_row(#[trigger] c.lines[i], b.cols as int, s.pen.bg)
                &&& forall|i: int|
                    row + m <= i <= bottom ==> #[trigger] c.lines[i] == b.lines[i - m]
                &&& forall|i: int|
                    0 <= i < row || bottom < i < b.rows ==> #[trigger] c.lines[i] == b.lines[i]
                &&& c.cursor == (Cursor { row: b.cursor.row, col: 0, pending_wrap: false })
                &&& front_only(ScreenView { epoch: t.epoch, prompts: t.prompts, ..s }, t)
                &&& t.epoch != s.epoch && t.prompts.len() == 0
            } else {
                t == s
            }
        }),
{
    let b = s.active();
    let (row, bottom) = (b.cursor.row as int, b.scroll_bottom as int);
    if b.scroll_top <= row <= bottom {
        let k = if n < 1 {
            1
        } else {
            n
        };
        let c = b.scrolled_down(row, bottom, k, s.blank());
        let e = b.scroll_down_effect(row, bottom, k);
        lemma_settled(s, c, e);
        let u = s.with_active(c).settled(e);
        assert(u == s.region_down(b, row, k));
        assert(s.lines_inserted(n) == u.returned());
    }
}

/// The same of the sequence that asks for it, with a count that may be missing.
pub proof fn lemma_insert_lines(s: ScreenView, n: u16)
    requires
        s.wf(),
    ensures
        ({
            let b = s.active();
            let t = csi(s, n, 76);
            let c = t.active();
            let (row, bottom) = (b.cursor.row as int, b.scroll_bottom as int);
            let m = asked(n as int, bottom - row + 1);
            if b.scroll_top <= row <= bottom {
                &&& rows_only(b, c)
                &&& forall|i: int|
                    row <= i < row + m ==> empty_row(#[trigger] c.lines[i], b.cols as int, s.pen.bg)
                &&& forall|i: int|
                    row + m <= i <= bottom ==> #[trigger] c.lines[i] == b.lines[i - m]
                &&& forall|i: int|
                    0 <= i < row || bottom < i < b.rows ==> #[trigger] c.lines[i] == b.lines[i]
                &&& c.cursor == (Cursor { row: b.cursor.row, col: 0, pending_wrap: false })
                &&& front_only(ScreenView { epoch: t.epoch, prompts: t.prompts, ..s }, t)
                &&& t.epoch != s.epoch && t.prompts.len() == 0
            } else {
                t == s
            }
        }),
{
    lemma_csi_edits(s, n, 76);
    lemma_lines_inserted(s, steps(n));
}

/// Deleting lines: inside the scroll region the rows below those deleted move up, blank
/// rows feed in at the bottom margin, and every other row stays. The deleted rows do not
/// become history.
pub proof fn lemma_lines_deleted(s: ScreenView, n: int)
    requires
        s.wf(),
        n >= 0,
    ensures
        ({
            let b = s.active();
            let t = s.lines_deleted(n);
            let c = t.active();
            let (row, bottom) = (b.cursor.row as int, b.scroll_bottom as int);
            let m = asked(n, bottom - row + 1);
            if b.scroll_top <= row <= bottom {
                &&& rows_only(b, c)
                &&& forall|i: int|
                    bottom - m < i <= bottom ==> empty_row(
                        #[trigger] c.lines[i],
                        b.cols as int,
                        s.pen.bg,
                    )
                &&& forall|i: int|
                    row <= i <= bottom - m ==> #[trigger] c.lines[i] == b.lines[i + m]
                &&& forall|i: int|
                    0 <= i < row || bottom < i < b.rows ==> #[trigger] c.lines[i] == b.lines[i]
                &&& c.cursor == (Cursor { row: b.cursor.row, col: 0, pending_wrap: false })
                &&& front_only(ScreenView { epoch: t.epoch, prompts: t.prompts, ..s }, t)
                &&& t.epoch != s.epoch && t.prompts.len() == 0
            } else {
                t == s
            }
        }),
{
    let b = s.active();
    let (row, bottom) = (b.cursor.row as int, b.scroll_bottom as int);
    if b.scroll_top <= row <= bottom {
        let k = if n < 1 {
            1
        } else {
            n
        };
        let c = b.scrolled_up(row, bottom, k, s.blank(), false);
        let e = b.scroll_up_effect(row, bottom, k, false);
        lemma_settled(s, c, e);
        let u = s.with_active(c).settled(e);
        assert(u == s.region_up(b, row, k, false));
        assert(s.lines_deleted(n) == u.returned());
    }
}

/// The same of the sequence that asks for it, with a count that may be missing.
pub proof fn lemma_delete_lines(s: ScreenView, n: u16)
    requires
        s.wf(),
    ensures
        ({
            let b = s.active();
            let t = csi(s, n, 77);
            let c = t.active();
            let (row, bottom) = (b.cursor.row as int, b.scroll_bottom as int);
            let m = asked(n as int, bottom - row + 1);
            if b.scroll_top <= row <= bottom {
                &&& rows_only(b, c)
                &&& forall|i: int|
                    bottom - m < i <= bottom ==> empty_row(
                        #[trigger] c.lines[i],
                        b.cols as int,
                        s.pen.bg,
                    )
                &&& forall|i: int|
                    row <= i <= bottom - m ==> #[trigger] c.lines[i] == b.lines[i + m]
                &&& forall|i: int|
                    0 <= i < row || bottom < i < b.rows ==> #[trigger] c.lines[i] == b.lines[i]
                &&& c.cursor == (Cursor { row: b.cursor.row, col: 0, pending_wrap: false })
                &&& front_only(ScreenView { epoch: t.epoch, prompts: t.prompts, ..s }, t)
                &&& t.epoch != s.epoch && t.prompts.len() == 0
            } else {
                t == s
            }
        }),
{
    lemma_csi_edits(s, n, 77);
    lemma_lines_deleted(s, steps(n));
}

/// What a scroll up by `m` leaves of the rows of the region.
pub open spec fn moved_rows_up(b: BufferView, c: BufferView, m: int, bg: Color) -> bool {
    let (top, bottom) = (b.scroll_top as int, b.scroll_bottom as int);
    &&& c.lines.len() == b.lines.len()
    &&& forall|i: int|
        bottom - m < i <= bottom ==> empty_row(#[trigger] c.lines[i], b.cols as int, bg)
    &&& forall|i: int| top <= i <= bottom - m ==> #[trigger] c.lines[i] == b.lines[i + m]
    &&& forall|i: int|
        0 <= i < top || bottom < i < b.rows ==> #[trigger] c.lines[i] == b.lines[i]
}

/// What a scroll up by `m` leaves of the history: where the region starts at the top of the
/// screen and there is a history, the rows that left stand at its end and the oldest lines
/// beyond the limit are gone and counted; elsewhere it stays.
pub open spec fn moved_rows_kept(b: BufferView, c: BufferView, m: int) -> bool {
    if b.scroll_top == 0 && b.scrollback_limit > 0 {
        let over = b.scrollback.len() + m - b.scrollback_limit;
        let gone = if over > 0 {
            over
        } else {
            0
        };
        &&& c.scrollback.len() == b.scrollback.len() + m - gone
        &&& forall|i: int|
            0 <= i < c.scrollback.len() ==> #[trigger] c.scrollback[i] == (if i + gone
                < b.scrollback.len() {
                b.scrollback[i + gone]
            } else {
                b.lines[i + gone - b.scrollback.len()]
            })
        &&& b.evicted + gone <= u64::MAX ==> c.evicted == b.evicted + gone
    } else {
        c.scrollback == b.scrollback && c.evicted == b.evicted
    }
}

/// What a scroll up by `m` does to the view and to the names of lines: a scrolled-up view
/// stays on its text while the history holds it, a view at the bottom stays there, and the
/// names stay good where every row that moved went into history.
pub open spec fn moved_rows_seen(s: ScreenView, t: ScreenView, m: int) -> bool {
    let b = s.active();
    let retired = b.scroll_top == 0 && b.scrollback_limit > 0;
    &&& t.view_offset == (if !retired || s.view_offset == 0 {
        s.view_offset as int
    } else {
        lesser(s.view_offset + m, t.primary.scrollback.len() as int)
    })
    &&& if retired && b.scroll_bottom + 1 == b.rows {
        t.epoch == s.epoch && t.prompts == s.prompts
    } else {
        t.epoch != s.epoch && t.prompts.len() == 0
    }
}

/// A scroll up of the region, in terms of its rows and of the history.
proof fn lemma_rows_up(b: BufferView, n: int, blank: Cell)
    requires
        b.wf(),
        n >= 1,
        blank == space_on(blank.bg),
    ensures
        ({
            let (top, bottom) = (b.scroll_top as int, b.scroll_bottom as int);
            let c = b.scrolled_up(top, bottom, n, blank, top == 0);
            let m = lesser(n, bottom - top + 1);
            &&& moved_rows_up(b, c, m, blank.bg)
            &&& moved_rows_kept(b, c, m)
            &&& c == (BufferView {
                lines: c.lines,
                scrollback: c.scrollback,
                evicted: c.evicted,
                ..b
            })
        }),
{
    let (top, bottom) = (b.scroll_top as int, b.scroll_bottom as int);
    let c = b.scrolled_up(top, bottom, n, blank, top == 0);
    let m = lesser(n, bottom - top + 1);
    if top == 0 && b.scrollback_limit > 0 {
        let all = b.scrollback + b.lines.take(m);
        let over = b.scrollback.len() + m - b.scrollback_limit;
        let gone = if over > 0 {
            over
        } else {
            0
        };
        assert(c.scrollback =~= all.skip(gone));
        assert forall|i: int| 0 <= i < c.scrollback.len() implies #[trigger] c.scrollback[i] == (if i
            + gone < b.scrollback.len() {
            b.scrollback[i + gone]
        } else {
            b.lines[i + gone - b.scrollback.len()]
        }) by {
            assert(c.scrollback[i] == all[i + gone]);
        }
    }
}

/// What is left behind by a scroll that put `c` in front.
proof fn lemma_settled(s: ScreenView, c: BufferView, e: Scrolled)
    requires
        e.pushed > 0 ==> !s.on_alt,
    ensures
        ({
            let t = s.with_active(c).settled(e);
            &&& t.active() == c
            &&& t.view_offset == (if e.pushed == 0 || s.view_offset == 0 {
                s.view_offset as int
            } else {
                least(s.view_offset + e.pushed, c.scrollback.len() as int) as usize as int
            })
            &&& if e.renumbered {
                t.epoch != s.epoch && t.prompts.len() == 0
            } else {
                t.epoch == s.epoch && t.prompts == s.prompts
            }
            &&& front_only(
                ScreenView {
                    epoch: t.epoch,
                    prompts: t.prompts,
                    view_offset: t.view_offset,
                    ..s
                },
                t,
            )
        }),
{
    crate::ids::lemma_epoch_moves(s.epoch);
    let u = s.with_active(c);
    assert(u.active() == c);
    let f = u.following(e.pushed as int);
    assert(f == (ScreenView { view_offset: f.view_offset, ..u }));
    let t = u.settled(e);
    assert(t == (ScreenView { epoch: t.epoch, prompts: t.prompts, ..f }));
}

/// A scroll up of the region, in terms of the view and of the names of lines.
proof fn lemma_rows_up_seen(s: ScreenView, b: BufferView, n: int)
    requires
        b.scroll_top == s.active().scroll_top,
        b.scroll_bottom == s.active().scroll_bottom,
        b.rows == s.active().rows,
        b.scrollback_limit == s.active().scrollback_limit,
        b.scroll_top <= b.scroll_bottom < b.rows,
        s.on_alt ==> b.scrollback_limit == 0,
        s.view_offset + b.rows <= usize::MAX,
        n >= 1,
    ensures
        ({
            let m = lesser(n, b.scroll_bottom - b.scroll_top + 1);
            let t = s.region_up(b, b.scroll_top as int, n, b.scroll_top == 0);
            &&& t.active() == b.scrolled_up(
                b.scroll_top as int,
                b.scroll_bottom as int,
                n,
                s.blank(),
                b.scroll_top == 0,
            )
            &&& moved_rows_seen(s, t, m)
            &&& front_only(
                ScreenView {
                    epoch: t.epoch,
                    prompts: t.prompts,
                    view_offset: t.view_offset,
                    ..s
                },
                t,
            )
        }),
{
    let (top, bottom) = (b.scroll_top as int, b.scroll_bottom as int);
    let c = b.scrolled_up(top, bottom, n, s.blank(), top == 0);
    let e = b.scroll_up_effect(top, bottom, n, top == 0);
    lemma_settled(s, c, e);
    assert(s.region_up(b, top, n, top == 0) == s.with_active(c).settled(e));
}

/// Scrolling up moves the rows of the region up by the count, feeds blank rows in at the
/// bottom margin, and keeps what left the top of the screen.
pub proof fn lemma_scrolled_up(s: ScreenView, n: int)
    requires
        s.wf(),
        n >= 0,
    ensures
        ({
            let b = s.active();
            let t = s.scrolled_up(n);
            let c = t.active();
            let m = asked(n, b.scroll_bottom - b.scroll_top + 1);
            &&& moved_rows_up(b, c, m, s.pen.bg)
            &&& moved_rows_kept(b, c, m)
            &&& moved_rows_seen(s, t, m)
            &&& c == (BufferView {
                lines: c.lines,
                scrollback: c.scrollback,
                evicted: c.evicted,
                ..b
            })
            &&& front_only(
                ScreenView {
                    epoch: t.epoch,
                    prompts: t.prompts,
                    view_offset: t.view_offset,
                    ..s
                },
                t,
            )
        }),
{
    let b = s.active();
    let k = if n < 1 {
        1
    } else {
        n
    };
    lemma_rows_up(b, k, s.blank());
    lemma_rows_up_seen(s, b, k);
    assert(s.scrolled_up(n) == s.region_up(b, b.scroll_top as int, k, b.scroll_top == 0));
}

/// The same of the sequence that asks for it, with a count that may be missing.
pub proof fn lemma_scroll_up(s: ScreenView, n: u16)
    requires
        s.wf(),
    ensures
        ({
            let b = s.active();
            let t = csi(s, n, 83);
            let c = t.active();
            let m = asked(n as int, b.scroll_bottom - b.scroll_top + 1);
            &&& moved_rows_up(b, c, m, s.pen.bg)
            &&& moved_rows_kept(b, c, m)
            &&& moved_rows_seen(s, t, m)
            &&& c == (BufferView {
                lines: c.lines,
                scrollback: c.scrollback,
                evicted: c.evicted,
                ..b
            })
            &&& front_only(
                ScreenView {
                    epoch: t.epoch,
                    prompts: t.prompts,
                    view_offset: t.view_offset,
                    ..s
                },
                t,
            )
        }),
{
    lemma_csi_edits(s, n, 83);
    lemma_scrolled_up(s, steps(n));
}

/// Scrolling down moves the rows of the region down by the count and opens blank rows
/// at the top margin. History is not touched, nor is the view.
pub proof fn lemma_scrolled_down(s: ScreenView, n: int)
    requires
        s.wf(),
        n >= 0,
    ensures
        ({
            let b = s.active();
            let t = s.scrolled_down(n);
            let c = t.active();
            let (top, bottom) = (b.scroll_top as int, b.scroll_bottom as int);
            let m = asked(n, bottom - top + 1);
            &&& rows_only(b, c)
            &&& c.cursor == b.cursor
            &&& forall|i: int|
                top <= i < top + m ==> empty_row(#[trigger] c.lines[i], b.cols as int, s.pen.bg)
            &&& forall|i: int| top + m <= i <= bottom ==> #[trigger] c.lines[i] == b.lines[i - m]
            &&& forall|i: int|
                0 <= i < top || bottom < i < b.rows ==> #[trigger] c.lines[i] == b.lines[i]
            &&& front_only(ScreenView { epoch: t.epoch, prompts: t.prompts, ..s }, t)
            &&& t.epoch != s.epoch && t.prompts.len() == 0
        }),
{
}

/// The same of the sequence that asks for it, with a count that may be missing.
pub proof fn lemma_scroll_down(s: ScreenView, n: u16)
    requires
        s.wf(),
    ensures
        ({
            let b = s.active();
            let t = csi(s, n, 84);
            let c = t.active();
            let (top, bottom) = (b.scroll_top as int, b.scroll_bottom as int);
            let m = asked(n as int, bottom - top + 1);
            &&& rows_only(b, c)
            &&& c.cursor == b.cursor
            &&& forall|i: int|
                top <= i < top + m ==> empty_row(#[trigger] c.lines[i], b.cols as int, s.pen.bg)
            &&& forall|i: int| top + m <= i <= bottom ==> #[trigger] c.lines[i] == b.lines[i - m]
            &&& forall|i: int|
                0 <= i < top || bottom < i < b.rows ==> #[trigger] c.lines[i] == b.lines[i]
            &&& front_only(ScreenView { epoch: t.epoch, prompts: t.prompts, ..s }, t)
            &&& t.epoch != s.epoch && t.prompts.len() == 0
        }),
{
    lemma_csi_edits(s, n, 84);
    lemma_scrolled_down(s, steps(n));
}

/// A line feed (`ESC D`) on the bottom margin scrolls the region by one and leaves the cursor
/// on it.
pub proof fn lemma_line_feed_at_the_margin(s: ScreenView)
    requires
        s.wf(),
        s.active().cursor.row == s.active().scroll_bottom,
    ensures
        ({
            let b = s.active();
            let t = esc(s, 68);
            let c = t.active();
            &&& moved_rows_up(b, c, 1, s.pen.bg)
            &&& moved_rows_kept(b, c, 1)
            &&& moved_rows_seen(s, t, 1)
            &&& c == (BufferView {
                lines: c.lines,
                scrollback: c.scrollback,
                evicted: c.evicted,
                cursor: Cursor { pending_wrap: false, ..b.cursor },
                ..b
            })
            &&& front_only(
                ScreenView {
                    epoch: t.epoch,
                    prompts: t.prompts,
                    view_offset: t.view_offset,
                    ..s
                },
                t,
            )
        }),
{
    lemma_escapes(s, 68);
    let u = s.active().unwrapped();
    lemma_rows_up(u, 1, s.blank());
    lemma_rows_up_seen(s, u, 1);
    let t = s.region_up(u, u.scroll_top as int, 1, u.scroll_top == 0);
    assert(esc(s, 68) == t);
    let (b, c) = (s.active(), t.active());
    assert(b.lines == u.lines && b.scrollback == u.scrollback);
    assert(moved_rows_up(u, c, 1, s.pen.bg) ==> moved_rows_up(b, c, 1, s.pen.bg));
    assert(moved_rows_kept(u, c, 1) ==> moved_rows_kept(b, c, 1));
}

/// A line feed (`ESC D`) off the bottom margin moves the cursor one row down in its column; on
/// the last row below the region nothing moves.
pub proof fn lemma_line_feed_inside(s: ScreenView)
    requires
        s.wf(),
        s.active().cursor.row != s.active().scroll_bottom,
    ensures
        ({
            let b = s.active();
            let t = esc(s, 68);
            let c = t.active();
            &&& c == (BufferView { cursor: c.cursor, ..b })
            &&& c.cursor.row == lesser(b.cursor.row + 1, b.rows - 1)
            &&& c.cursor.col == b.cursor.col && !c.cursor.pending_wrap
            &&& front_only(s, t)
        }),
{
    lemma_escapes(s, 68);
}

/// The bytes 10, 11 and 12 feed a line, and leave nothing to repeat.
pub proof fn lemma_line_feed_bytes(s: ScreenView, byte: u8)
    requires
        10 <= byte <= 12,
    ensures
        control(s, byte) == (ScreenView {
            last_printed: None,
            ..esc(s, 68)
        }),
{
    lemma_escapes(s, 68);
    lemma_controls(s, byte);
}

/// The next line (`ESC E`) is a line feed and a carriage return.
pub proof fn lemma_next_line(s: ScreenView)
    requires
        s.wf(),
    ensures
        ({
            let t = esc(s, 68);
            let u = esc(s, 69);
            &&& u.active() == (BufferView {
                cursor: Cursor { row: t.active().cursor.row, col: 0, pending_wrap: false },
                ..t.active()
            })
            &&& front_only(t, u)
        }),
{
    lemma_escapes(s, 68);
    lemma_escapes(s, 69);
}

/// A reverse index (`ESC M`) moves the cursor one row up in its column; on the top margin the
/// region scrolls down by one instead, and on the first row above the region nothing moves.
pub proof fn lemma_reverse_index(s: ScreenView)
    requires
        s.wf(),
    ensures
        ({
            let b = s.active();
            let t = esc(s, 77);
            let c = t.active();
            let (top, bottom) = (b.scroll_top as int, b.scroll_bottom as int);
            &&& rows_only(b, c)
            &&& c.cursor.col == b.cursor.col && !c.cursor.pending_wrap
            &&& if b.cursor.row == top {
                &&& c.cursor.row == top
                &&& empty_row(c.lines[top], b.cols as int, s.pen.bg)
                &&& forall|i: int| top < i <= bottom ==> #[trigger] c.lines[i] == b.lines[i - 1]
                &&& forall|i: int|
                    0 <= i < top || bottom < i < b.rows ==> #[trigger] c.lines[i] == b.lines[i]
                &&& t.epoch != s.epoch && t.prompts.len() == 0
            } else {
                &&& c.cursor.row == (if b.cursor.row > 0 {
                    b.cursor.row - 1
                } else {
                    0
                })
                &&& c.lines == b.lines
                &&& t.epoch == s.epoch && t.prompts == s.prompts
            }
            &&& front_only(ScreenView { epoch: t.epoch, prompts: t.prompts, ..s }, t)
        }),
{
    lemma_escapes(s, 77);
}

} // verus!
