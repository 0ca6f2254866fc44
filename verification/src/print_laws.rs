//! What printing a character does to the screen, cell by cell.
use vstd::prelude::*;
use crate::attrs::{lemma_wide_bits, Attrs};
use crate::buffer::{BufferView, Scrolled};
use crate::cell::{Cell, Cursor, Pen};
use crate::color::Color;
use crate::grapheme::BreakState;
use crate::edit_laws::{cut_before, lemma_row_insert};
use crate::dispatch::mapped;
use crate::dispatch_laws::{csi, esc, lemma_csi_edits, lemma_csi_moves, lemma_escapes};
use crate::line_laws::{front_only, space_on};
use crate::print::lemma_printed_all_join;
use crate::row::{lemma_marks_of_dropped, marks_of, RowView};
use crate::screen::{Modes, ScreenView};
use crate::width::{cluster_columns, columns, lemma_columns};

verus! {

/// A cell holds what the pen prints: its colours, its link, and its attributes but for the
/// bits that mark the halves of a wide character.
pub open spec fn inked(cell: Cell, pen: Pen) -> bool {
    &&& cell.fg == pen.fg
    &&& cell.bg == pen.bg
    &&& cell.link == pen.link
    &&& cell.attrs.0 & !0x0180u16 == pen.attrs.0
}

/// The cursor behind `end` columns of a row: in the next column, or parked in the last one.
pub open spec fn cursor_behind(b: BufferView, end: int, autowrap: bool) -> Cursor {
    if end < b.cols {
        Cursor { row: b.cursor.row, col: end as usize, pending_wrap: false }
    } else {
        Cursor { row: b.cursor.row, col: (b.cols - 1) as usize, pending_wrap: autowrap }
    }
}

/// The attributes of the two halves of a wide glyph.
proof fn lemma_inked_bits(a: Attrs)
    requires
        a.narrow(),
    ensures
        a.0 & !0x0180u16 == a.0,
        (a.0 | 128) & !0x0180u16 == a.0,
        (a.0 | 256) & !0x0180u16 == a.0,
        (a.0 | 128) & 0x0180 == 128,
        (a.0 | 256) & 0x0180 == 256,
{
    let x = a.0;
    assert(x & !0x0180u16 == x && (x | 128) & !0x0180u16 == x && (x | 256) & !0x0180u16 == x && (x
        | 128) & 0x0180 == 128 && (x | 256) & 0x0180 == 256) by (bit_vector)
        requires
            x & 0x0180 == 0,
    ;
}

/// Where a character that takes columns of its own lands without a wrap.
pub open spec fn lands(s: ScreenView, c: char) -> bool {
    let b = s.active();
    &&& columns(c) >= 1
    &&& !s.joins(c)
    &&& !b.cursor.pending_wrap
    &&& b.cursor.col + columns(c) <= b.cols
}

/// What a glyph put at the cursor is, by itself.
proof fn lemma_landed(s: ScreenView, c: char)
    requires
        s.wf(),
        lands(s, c),
    ensures
        ({
            let b = s.active();
            let t = s.printed(c);
            let w = columns(c) as int;
            let shift = s.shift();
            &&& 1 <= w <= 2
            &&& t.active() == b.glyph_put(c, w, s.pen, shift, s.modes.autowrap)
            &&& t.last_printed == Some(c)
            &&& front_only(
                ScreenView {
                    last_printed: t.last_printed,
                    cluster: t.cluster,
                    cluster_anchor: t.cluster_anchor,
                    ..s
                },
                t,
            )
            &&& !s.modes.grapheme_clustering ==> t.cluster == s.cluster && t.cluster_anchor
                == s.cluster_anchor
        }),
{
    reveal(ScreenView::printed);
    lemma_columns(c);
}

/// A character printed where there is room for it: each of its cells carries the pen's
/// colours, link and attributes, the first holds the character, and the halves of a wide one
/// are marked as such.
pub proof fn lemma_printed_cells(s: ScreenView, c: char)
    requires
        s.wf(),
        lands(s, c),
    ensures
        ({
            let b = s.active();
            let k = s.printed(c).active();
            let (row, col) = (b.cursor.row as int, b.cursor.col as int);
            let w = columns(c) as int;
            &&& 1 <= w <= 2
            &&& forall|i: int| 0 <= i < w ==> inked(#[trigger] k.cell_at(row, col + i), s.pen)
            &&& k.cell_at(row, col).rune == c
            &&& w == 1 ==> k.cell_at(row, col).attrs == s.pen.attrs
            &&& w == 2 ==> {
                &&& k.cell_at(row, col).attrs.0 & 0x0180 == 128
                &&& k.cell_at(row, col + 1).rune == ' '
                &&& k.cell_at(row, col + 1).attrs.0 & 0x0180 == 256
            }
        }),
{
    lemma_landed(s, c);
    lemma_inked_bits(s.pen.attrs);
    let b = s.active();
    let (row, col) = (b.cursor.row as int, b.cursor.col as int);
    let w = columns(c) as int;
    assert(b.lines[row].wf(b.cols as int));
    if s.modes.insert_mode {
        lemma_row_insert(b.lines[row], b.cols as int, col, w, s.blank());
    }
    let k = s.printed(c).active();
    assert(k.lines.len() == b.rows);
    assert(k.lines[row].cells.len() == b.cols);
    assert forall|i: int| 0 <= i < w implies inked(#[trigger] k.cell_at(row, col + i), s.pen) by {
        if w == 2 && i == 1 {
            assert(k.cell_at(row, col + i) == s.pen.spacer());
        } else if w == 2 {
            assert(k.cell_at(row, col + i) == s.pen.leader(c));
        } else {
            assert(k.cell_at(row, col + i) == s.pen.cell(c));
        }
    }
    assert(w == 2 ==> k.cell_at(row, col + 1) == s.pen.spacer());
}

/// Printing leaves the rest of the screen alone: the other rows, and in the row the cells
/// beside the glyph, but that a wide character it cut in two goes blank. The cursor goes
/// behind the glyph, or parks in the last column with a wrap pending where autowrap is on.
pub proof fn lemma_printed_rest(s: ScreenView, c: char)
    requires
        s.wf(),
        lands(s, c),
        !s.modes.insert_mode,
    ensures
        ({
            let b = s.active();
            let t = s.printed(c);
            let k = t.active();
            let (row, col, cols) = (b.cursor.row as int, b.cursor.col as int, b.cols as int);
            let end = col + columns(c);
            let (r, q) = (b.lines[row], k.lines[row]);
            &&& k.lines.len() == b.lines.len()
            &&& forall|i: int| 0 <= i < b.rows && i != row ==> #[trigger] k.lines[i] == b.lines[i]
            &&& q.cells.len() == cols
            &&& forall|j: int|
                0 <= j < col || end <= j < cols ==> #[trigger] q.cells[j] == (if (j == col - 1
                    && cut_before(r, col)) || (j == end && cut_before(r, end)) {
                    space_on(Color::Default)
                } else {
                    r.cells[j]
                })
            &&& forall|j: int|
                0 <= j < cols ==> #[trigger] marks_of(q.marks, j) == (if col <= j < end || (j == col
                    - 1 && cut_before(r, col)) {
                    Seq::empty()
                } else {
                    marks_of(r.marks, j)
                })
            &&& q.wrapped == (r.wrapped && end < cols && !(end + 1 == cols && cut_before(r, end)))
            &&& k.cursor == cursor_behind(b, end, s.modes.autowrap)
            &&& k == (BufferView { lines: k.lines, cursor: k.cursor, ..b })
            &&& t.last_printed == Some(c)
            &&& front_only(
                ScreenView {
                    last_printed: t.last_printed,
                    cluster: t.cluster,
                    cluster_anchor: t.cluster_anchor,
                    ..s
                },
                t,
            )
        }),
{
    lemma_landed(s, c);
    let b = s.active();
    let (row, col) = (b.cursor.row as int, b.cursor.col as int);
    let r = b.lines[row];
    let end = col + columns(c);
    assert(r.wf(b.cols as int));
    assert(crate::row::pair_at(r.cells, col));
    let q = s.printed(c).active().lines[row];
    let lo = if r.cells[col].spacer() {
        col - 1
    } else {
        col
    };
    assert forall|j: int| 0 <= j < b.cols implies #[trigger] marks_of(q.marks, j) == (if lo <= j
        < end {
        Seq::empty()
    } else {
        marks_of(r.marks, j)
    }) by {
        lemma_marks_of_dropped(r.marks, lo, end, j);
    }
}

/// Under insert mode the row first opens for the glyph: what stood at the cursor and behind
/// it moves right by its columns, and off the edge.
pub proof fn lemma_printed_inserting(s: ScreenView, c: char)
    requires
        s.wf(),
        lands(s, c),
        s.modes.insert_mode,
    ensures
        ({
            let b = s.active();
            let t = s.printed(c);
            let k = t.active();
            let (row, col, cols) = (b.cursor.row as int, b.cursor.col as int, b.cols as int);
            let w = columns(c) as int;
            let (r, q) = (b.lines[row], k.lines[row]);
            &&& k.lines.len() == b.lines.len()
            &&& forall|i: int| 0 <= i < b.rows && i != row ==> #[trigger] k.lines[i] == b.lines[i]
            &&& q.cells.len() == cols && !q.wrapped
            &&& forall|j: int|
                0 <= j < col ==> #[trigger] q.cells[j] == (if j == col - 1 && cut_before(r, col) {
                    space_on(s.pen.bg)
                } else {
                    r.cells[j]
                })
            &&& forall|j: int|
                col + w <= j < cols ==> #[trigger] q.cells[j] == (if (j == col + w && cut_before(
                    r,
                    col,
                )) || (j == cols - 1 && cut_before(r, cols - w)) {
                    space_on(s.pen.bg)
                } else {
                    r.cells[j - w]
                })
            &&& k.cursor == cursor_behind(b, col + w, s.modes.autowrap)
            &&& k == (BufferView { lines: k.lines, cursor: k.cursor, ..b })
            &&& t.last_printed == Some(c)
        }),
{
    lemma_landed(s, c);
    let b = s.active();
    let (row, col, cols) = (b.cursor.row as int, b.cursor.col as int, b.cols as int);
    let w = columns(c) as int;
    let r = b.lines[row];
    assert(r.wf(cols));
    lemma_row_insert(r, cols, col, w, s.blank());
    lemma_wide_bits(Attrs(0));
    let o = r.insert(col, w, s.blank());
    assert(!o.cells[col].spacer());
    assert(crate::row::pair_at(r.cells, col));
    if col + w < cols {
        assert(o.cells[col + w] == s.blank() || o.cells[col + w] == r.cells[col]);
        assert(!o.cells[col + w].spacer());
    }
}

/// The screen with the cursor's row linked to the next one and the cursor at the start of
/// that: what a soft wrap comes to.
pub open spec fn wrapped_over(s: ScreenView) -> ScreenView {
    let b = s.active();
    let row = b.cursor.row as int;
    let linked = BufferView {
        lines: b.lines.update(row, RowView { wrapped: true, ..b.lines[row] }),
        ..b
    };
    esc(s.with_active(linked), 69)
}

/// A soft wrap puts the cursor at the start of a line of the same screen.
proof fn lemma_wrapped_over(s: ScreenView)
    requires
        s.wf(),
    ensures
        wrapped_over(s) == s.wrapped_line(),
        wrapped_over(s).active().cursor.col == 0,
        !wrapped_over(s).active().cursor.pending_wrap,
        wrapped_over(s).active().cols == s.active().cols,
        wrapped_over(s).modes == s.modes,
{
    reveal(ScreenView::wrapped_line);
    let b = s.active();
    let row = b.cursor.row as int;
    let linked = BufferView {
        lines: b.lines.update(row, RowView { wrapped: true, ..b.lines[row] }),
        ..b
    };
    lemma_escapes(s.with_active(linked), 69);
}

/// A wrap that is pending is performed before a glyph: printing is then printing on the
/// screen with the row linked and the cursor on the next line.
pub proof fn lemma_printed_after_a_wrap(s: ScreenView, c: char)
    requires
        s.wf(),
        !s.modes.grapheme_clustering,
        columns(c) >= 1,
        s.active().cursor.pending_wrap,
    ensures
        s.printed(c) == wrapped_over(s).printed(c),
        !wrapped_over(s).active().cursor.pending_wrap,
        wrapped_over(s).active().cursor.col == 0,
{
    reveal(ScreenView::printed);
    lemma_wrapped_over(s);
    let t = wrapped_over(s);
    let w = columns(c) as int;
    assert(t.unparked() == t);
    assert(s.unparked() == t);
}

/// Backing up by a column is what makes room at the edge without autowrap.
proof fn lemma_backed_up(s: ScreenView)
    requires
        !s.modes.autowrap,
        !s.active().cursor.pending_wrap,
        s.active().cols >= 2,
        s.active().cursor.col + 1 == s.active().cols,
    ensures
        s.room_for(2) == csi(s, 1, 68),
        csi(s, 1, 68).active().cursor == (Cursor {
            row: s.active().cursor.row,
            col: (s.active().cols - 2) as usize,
            pending_wrap: false,
        }),
        csi(s, 1, 68).active().cols == s.active().cols,
{
    lemma_csi_moves(s, 1, 68);
    let b = s.active();
    assert(csi(s, 1, 68) == s.with_active(b.moved_back(1)));
    assert(s.unparked() == s);
}

/// A wide glyph with a single column left wraps first where autowrap is on; where it is off
/// it backs up by one column.
pub proof fn lemma_wide_at_the_edge(s: ScreenView, c: char)
    requires
        s.wf(),
        !s.modes.grapheme_clustering,
        columns(c) == 2,
        !s.active().cursor.pending_wrap,
        s.active().cols >= 2,
        s.active().cursor.col + 1 == s.active().cols,
    ensures
        s.modes.autowrap ==> s.printed(c) == wrapped_over(s).printed(c),
        !s.modes.autowrap ==> s.printed(c) == csi(s, 1, 68).printed(c),
        !s.modes.autowrap ==> csi(s, 1, 68).active().cursor.col == s.active().cols - 2,
{
    reveal(ScreenView::printed);
    assert(s.unparked() == s);
    if s.modes.autowrap {
        lemma_wrapped_over(s);
        let t = wrapped_over(s);
        assert(t.unparked() == t);
        assert(t.room_for(2) == t);
        assert(s.room_for(2) == t);
    } else {
        lemma_backed_up(s);
        let t = csi(s, 1, 68);
        assert(t.unparked() == t);
        assert(t.room_for(2) == t);
    }
}

/// A combining mark joins the character before the cursor: the cell left of it, the last cell
/// where a wrap is pending, or the left half where that is a wide character. A cell takes no
/// more than thirty-two. The cells and the cursor stay, and a mark before any character is
/// dropped.
pub proof fn lemma_combining_mark(s: ScreenView, c: char)
    requires
        s.wf(),
        !s.modes.grapheme_clustering,
        columns(c) == 0,
    ensures
        ({
            let b = s.active();
            let t = s.printed(c);
            let k = t.active();
            let row = b.cursor.row as int;
            let left = if b.cursor.pending_wrap {
                b.cols - 1
            } else {
                b.cursor.col - 1
            };
            let at = if left > 0 && b.lines[row].cells[left].attrs.0 & 256 == 256 {
                left - 1
            } else {
                left
            };
            let had = marks_of(b.lines[row].marks, at);
            if left < 0 {
                t == s
            } else {
                &&& marks_of(k.lines[row].marks, at) == (if had.len() < 32 {
                    had.push(c)
                } else {
                    had
                })
                &&& forall|j: int|
                    j != at ==> #[trigger] marks_of(k.lines[row].marks, j) == marks_of(
                        b.lines[row].marks,
                        j,
                    )
                &&& k.lines[row].cells == b.lines[row].cells
                &&& k.lines[row].wrapped == b.lines[row].wrapped
                &&& k.lines.len() == b.lines.len()
                &&& forall|i: int|
                    0 <= i < b.rows && i != row ==> #[trigger] k.lines[i] == b.lines[i]
                &&& k == (BufferView { lines: k.lines, ..b })
                &&& front_only(s, t)
            }
        }),
{
    reveal(ScreenView::printed);
    let b = s.active();
    let row = b.cursor.row as int;
    let left = if b.cursor.pending_wrap {
        b.cols - 1
    } else {
        b.cursor.col - 1
    };
    if left >= 0 {
        let r = b.lines[row];
        let at = if left > 0 && r.cells[left].spacer() {
            left - 1
        } else {
            left
        };
        let q = r.marked(at, c);
        assert(s.printed(c).active().lines[row] == q);
        if marks_of(r.marks, at).len() < 32 {
            assert(q.marks.drop_last() =~= r.marks);
            assert(q.marks.last().col == at && q.marks.last().ch == c);
        }
    }
}

/// A scalar that joins the cluster behind the cursor adds a mark to it and nothing else, but
/// that a cluster which grows from one column to two takes the cell beside it, where there
/// is one: its cell becomes a left half, the next one a right half in its colours, and the
/// cursor goes behind.
pub proof fn lemma_cluster_grows(s: ScreenView, c: char)
    requires
        s.wf(),
        s.joins(c),
        s.cluster_anchor matches Some(a) ==> a.row < s.active().rows && a.col < s.active().cols,
    ensures
        ({
            let b = s.active();
            let t = s.printed(c);
            let k = t.active();
            let a = s.cluster_anchor->0;
            let (row, col) = (a.row as int, a.col as int);
            let (r, q) = (b.lines[row], k.lines[row]);
            let had = marks_of(r.marks, col);
            let text = seq![r.cells[col].rune] + had;
            let base = r.cells[col];
            let grows = had.len() < 32 && cluster_columns(text) < 2 && cluster_columns(text.push(c))
                == 2 && col + 1 < b.cols && base.attrs.0 & 128 != 128 && base.attrs.0 & 256 != 256;
            &&& s.cluster_anchor is Some
            &&& k.lines.len() == b.lines.len()
            &&& forall|i: int| 0 <= i < b.rows && i != row ==> #[trigger] k.lines[i] == b.lines[i]
            &&& had.len() < 32 ==> marks_of(q.marks, col) == had.push(c)
            &&& had.len() >= 32 ==> marks_of(q.marks, col) == had
            &&& q.cells.len() == r.cells.len()
            &&& q.cells[col].rune == base.rune && q.cells[col].fg == base.fg && q.cells[col].bg
                == base.bg && q.cells[col].link == base.link
            &&& if grows {
                &&& q.cells[col].attrs.0 == base.attrs.0 | 128
                &&& q.cells[col + 1].rune == ' ' && q.cells[col + 1].fg == base.fg && q.cells[col
                    + 1].bg == base.bg && q.cells[col + 1].link == base.link && q.cells[col
                    + 1].attrs.0 == base.attrs.0 | 256
                &&& k.cursor == (if col + 2 < b.cols {
                    Cursor { row: b.cursor.row, col: (col + 2) as usize, pending_wrap: false }
                } else {
                    Cursor { row: b.cursor.row, col: (b.cols - 1) as usize, pending_wrap: true }
                })
            } else {
                q.cells == r.cells && k.cursor == b.cursor
            }
            &&& forall|j: int|
                0 <= j < r.cells.len() && j != col && j != col + 1 ==> #[trigger] q.cells[j] == (if grows
                    && j == col + 2 && cut_before(r, j) {
                    space_on(Color::Default)
                } else {
                    r.cells[j]
                })
            &&& t.last_printed == Some(c)
        }),
{
    reveal(ScreenView::printed);
    let b = s.active();
    let a = s.cluster_anchor->0;
    let (row, col) = (a.row as int, a.col as int);
    let r = b.lines[row];
    let m = r.marked(col, c);
    let had = marks_of(r.marks, col);
    let text = seq![r.cells[col].rune] + had;
    assert(r.wf(b.cols as int));
    let w = b.with_line(row, m);
    assert(w.lines[row] == m);
    if had.len() < 32 {
        assert(m.marks.drop_last() =~= r.marks);
        assert(m.marks.last().col == col && m.marks.last().ch == c);
        assert(marks_of(m.marks, col) == had.push(c));
        assert(w.cluster_text(row, col) =~= text.push(c));
    } else {
        assert(m == r);
        assert(w.cluster_text(row, col) =~= text);
    }
}

/// When a scalar joins what is behind the cursor: under clustering, while the cursor is where
/// the last character left it, and where no boundary lies before the scalar.
pub proof fn lemma_joining(s: ScreenView, c: char)
    ensures
        s.joins(c) == (s.modes.grapheme_clustering && (s.cluster_anchor matches Some(a) && a.after
            == (s.active().cursor.row, s.active().cursor.col)) && !s.cluster.boundary(c)),
{
}

/// Under clustering a character that lands begins a cluster: its cell is the one to join, for
/// as long as the cursor stays behind it, and the segmentation has read it.
pub proof fn lemma_cluster_begins(s: ScreenView, c: char)
    requires
        s.wf(),
        lands(s, c),
        s.modes.grapheme_clustering,
    ensures
        ({
            let t = s.printed(c);
            let here = (s.active().cursor.row, s.active().cursor.col);
            let behind = (t.active().cursor.row, t.active().cursor.col);
            &&& t.cluster_anchor matches Some(a) && a.row == here.0 && a.col == here.1 && a.after
                == behind
            &&& t.cluster == (if (s.cluster_anchor matches Some(a) && a.after == here) {
                s.cluster.after(c)
            } else {
                (BreakState {
                    started: false,
                    pictograph: false,
                    joined: false,
                    odd_regional: false,
                }).after(c)
            })
        }),
{
    reveal(ScreenView::printed);
    lemma_columns(c);
    let k = s.classed(c);
    assert(k.active() == s.active());
    assert(k.room_for(columns(c) as int) == k);
}

/// Clustering changes nothing of how a character that joins no cluster is printed.
pub proof fn lemma_unjoined_prints_alike(s: ScreenView, c: char)
    requires
        s.wf(),
        !s.joins(c),
        s.modes.grapheme_clustering,
    ensures
        ({
            let plain = ScreenView {
                modes: Modes { grapheme_clustering: false, ..s.modes },
                ..s
            };
            s.printed(c).active() == plain.printed(c).active()
        }),
{
    reveal(ScreenView::printed);
    let plain = ScreenView { modes: Modes { grapheme_clustering: false, ..s.modes }, ..s };
    let k = s.classed(c);
    let w = columns(c) as int;
    assert(k.active() == s.active() && plain.active() == s.active());
    assert(!plain.joins(c));
    assert(s.printed(c) == k.printed_width(c, w));
    assert(plain.printed(c) == plain.printed_width(c, w));
    if w > 0 {
        lemma_room_alike(k, plain, w);
        let (x, y) = (k.room_for(w), plain.room_for(w));
        assert(k.printed_width(c, w) == x.placed(c, w));
        assert(plain.printed_width(c, w) == y.placed(c, w));
        assert(x.shift() == y.shift());
    }
}

/// Two screens that differ in nothing a wrap looks at wrap alike.
proof fn lemma_wrap_alike(s: ScreenView, t: ScreenView)
    requires
        s.active() == t.active(),
        s.pen == t.pen,
    ensures
        s.wrapped_line().active() == t.wrapped_line().active(),
        s.wrapped_line().pen == s.pen,
        s.wrapped_line().modes == s.modes,
        t.wrapped_line().pen == t.pen,
        t.wrapped_line().modes == t.modes,
{
    reveal(ScreenView::wrapped_line);
    let b = s.active();
    let row = b.cursor.row as int;
    let l = b.with_line(row, RowView { wrapped: true, ..b.lines[row] });
    let (x, y) = (s.with_active(l), t.with_active(l));
    assert(x.active() == l && y.active() == l);
    assert(x.blank() == y.blank());
    lemma_fed_alike(x, y);
}

proof fn lemma_fed_alike(s: ScreenView, t: ScreenView)
    requires
        s.active() == t.active(),
        s.blank() == t.blank(),
    ensures
        s.line_fed().active() == t.line_fed().active(),
        s.line_fed().pen == s.pen,
        s.line_fed().modes == s.modes,
        t.line_fed().pen == t.pen,
        t.line_fed().modes == t.modes,
{
    let b = s.active().unwrapped();
    if b.cursor.row == b.scroll_bottom {
        let (top, bottom) = (b.scroll_top as int, b.scroll_bottom as int);
        let c = b.scrolled_up(top, bottom, 1, s.blank(), top == 0);
        let e = b.scroll_up_effect(top, bottom, 1, top == 0);
        lemma_settles(s, c, e);
        lemma_settles(t, c, e);
        assert(s.line_fed() == s.with_active(c).settled(e));
        assert(t.line_fed() == t.with_active(c).settled(e));
    }
}

proof fn lemma_settles(s: ScreenView, c: BufferView, e: Scrolled)
    ensures
        s.with_active(c).settled(e).active() == c,
        s.with_active(c).settled(e).pen == s.pen,
        s.with_active(c).settled(e).modes == s.modes,
{
    let u = s.with_active(c);
    assert(u.active() == c);
    let f = u.following(e.pushed as int);
    assert(f.active() == c);
}

proof fn lemma_room_alike(s: ScreenView, t: ScreenView, w: int)
    requires
        s.active() == t.active(),
        s.pen == t.pen,
        s.modes.autowrap == t.modes.autowrap,
        s.modes.insert_mode == t.modes.insert_mode,
    ensures
        s.room_for(w).active() == t.room_for(w).active(),
        s.room_for(w).pen == s.pen,
        s.room_for(w).modes == s.modes,
        t.room_for(w).pen == t.pen,
        t.room_for(w).modes == t.modes,
{
    lemma_wrap_alike(s, t);
    let (x, y) = (s.unparked(), t.unparked());
    assert(x.active() == y.active() && x.pen == y.pen);
    lemma_wrap_alike(x, y);
}

/// A wide glyph on a screen one column wide goes in as an ordinary cell.
pub proof fn lemma_wide_in_one_column(s: ScreenView, c: char)
    requires
        s.wf(),
        !s.modes.grapheme_clustering,
        !s.modes.autowrap,
        !s.modes.insert_mode,
        columns(c) == 2,
        s.active().cols == 1,
        !s.active().cursor.pending_wrap,
    ensures
        ({
            let k = s.printed(c).active();
            let row = s.active().cursor.row as int;
            k.cell_at(row, 0) == (Cell {
                rune: c,
                fg: s.pen.fg,
                bg: s.pen.bg,
                attrs: s.pen.attrs,
                link: s.pen.link,
            })
        }),
{
    reveal(ScreenView::printed);
    let b = s.active();
    let row = b.cursor.row as int;
    assert(b.lines[row].wf(1));
    assert(s.unparked() == s);
    assert(s.printed(c) == s.room_for(2).placed(c, 2));
    let r = s.room_for(2);
    assert(r.active().lines == b.lines);
    assert(r.active().cursor.col == 0 && r.active().cursor.row == b.cursor.row);
    assert(r.pen == s.pen);
}

/// Repeating (`b`) prints the last character as many times more as asked, and does nothing
/// where there is none.
pub proof fn lemma_repeat(s: ScreenView, n: u16)
    ensures
        s.last_printed is None ==> csi(s, n, 98) == s,
        s.last_printed matches Some(c) ==> csi(s, n, 98) == s.printed_all(
            Seq::new(
                if n == 0 {
                    1
                } else {
                    n as nat
                },
                |i: int| c,
            ),
        ),
{
    lemma_csi_edits(s, n, 98);
    if let Some(c) = s.last_printed {
        let k: nat = if n == 0 {
            1
        } else {
            n as nat
        };
        lemma_times(s, c, k);
    }
}

proof fn lemma_times(s: ScreenView, c: char, k: nat)
    ensures
        s.printed_times(c, k as int) == s.printed_all(Seq::new(k, |i: int| c)),
    decreases k,
{
    if k > 0 {
        let j = (k - 1) as nat;
        lemma_times(s, c, j);
        assert(Seq::new(k, |i: int| c).drop_last() =~= Seq::new(j, |i: int| c));
    }
}

/// Text is printed character by character as the set in use reads it.
pub proof fn lemma_text_is_mapped(s: ScreenView, chars: Seq<char>)
    ensures
        s.text_printed(chars) == s.printed_all(
            Seq::new(chars.len(), |i: int| mapped(chars[i], s.charsets)),
        ),
{
    assert(crate::dispatch::mapped_all(chars, s.charsets) =~= Seq::new(
        chars.len(),
        |i: int| mapped(chars[i], s.charsets),
    ));
}

/// A run of characters is its characters printed one by one, from the first to the last.
pub proof fn lemma_printed_in_order(s: ScreenView, c: char, rest: Seq<char>)
    ensures
        s.printed_all(Seq::empty()) == s,
        s.printed_all(seq![c] + rest) == s.printed(c).printed_all(rest),
{
    lemma_printed_all_join(s, seq![c], rest);
    assert(seq![c].drop_last() =~= Seq::empty());
    assert(s.printed_all(seq![c]) == s.printed_all(Seq::empty()).printed(c));
}

} // verus!
