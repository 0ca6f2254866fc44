//! What the sequences that erase, open and close cells do to a row, cell by cell.
use vstd::prelude::*;
use crate::buffer::BufferView;
use crate::cell::{narrow_cell, Cell, Cursor};
use crate::color::Color;
use crate::dispatch_laws::{csi, lemma_csi_edits};
use crate::line_laws::{asked, empty_row, front_only, lesser, rows_only, space_on};
use crate::row::{
    drop_marks, lemma_marks_of_dropped, marks_of, shift_marks, CombiningMark, RowView,
};
use crate::screen::ScreenView;

verus! {

/// The other half of a wide character stands beside a range of columns: its left half just
/// before `lo`, or its right half at `hi`.
pub open spec fn half_beside(r: RowView, lo: int, hi: int, j: int) -> bool {
    ||| j == lo - 1 && r.cells[lo].attrs.0 & 256 == 256
    ||| j == hi && r.cells[hi - 1].attrs.0 & 128 == 128
}

/// Columns `lo` up to `hi` of a row erased: each of those cells, and the half of a wide
/// character cut off by either edge, is a space in the background without marks, and every
/// other cell keeps its glyph and its marks. The line ends in this row where its last column
/// went, and wraps as it did where it did not.
pub open spec fn columns_erased(r: RowView, q: RowView, lo: int, hi: int, bg: Color) -> bool {
    &&& q.cells.len() == r.cells.len()
    &&& forall|j: int|
        0 <= j < r.cells.len() ==> #[trigger] q.cells[j] == (if lo <= j < hi || half_beside(
            r,
            lo,
            hi,
            j,
        ) {
            space_on(bg)
        } else {
            r.cells[j]
        })
    &&& forall|j: int|
        0 <= j < r.cells.len() ==> #[trigger] marks_of(q.marks, j) == (if lo <= j < hi
            || half_beside(r, lo, hi, j) {
            Seq::empty()
        } else {
            marks_of(r.marks, j)
        })
    &&& q.wrapped == (r.wrapped && hi < r.cells.len() && !half_beside(
        r,
        lo,
        hi,
        r.cells.len() - 1,
    ))
}

/// An erased range of a row, in terms of its cells.
proof fn lemma_columns_erased(r: RowView, cols: int, lo: int, hi: int, blank: Cell)
    requires
        r.wf(cols),
        0 <= lo < hi <= cols,
    ensures
        blank == space_on(blank.bg) ==> columns_erased(
            r,
            r.erase(lo, hi, blank),
            lo,
            hi,
            blank.bg,
        ),
{
    assert(crate::row::pair_at(r.cells, lo));
    assert(crate::row::pair_at(r.cells, hi - 1));
    let first = if r.cells[lo].spacer() && lo > 0 {
        lo - 1
    } else {
        lo
    };
    let last = if r.cells[hi - 1].leader() && hi < cols {
        hi + 1
    } else {
        hi
    };
    assert forall|j: int| 0 <= j < cols implies #[trigger] marks_of(
        r.erase(lo, hi, blank).marks,
        j,
    ) == (if first <= j < last {
        Seq::empty()
    } else {
        marks_of(r.marks, j)
    }) by {
        lemma_marks_of_dropped(r.marks, first, last, j);
    }
}

/// Erasing in the line (`K`): to its end, up to the cursor and with it, or all of it. No other
/// row changes, and the cursor stays with no wrap pending.
pub proof fn lemma_erase_line(s: ScreenView, mode: u16)
    requires
        s.wf(),
    ensures
        ({
            let b = s.active();
            let t = csi(s, mode, 75);
            let c = t.active();
            let (row, col) = (b.cursor.row as int, b.cursor.col as int);
            let lo = if mode == 1 || mode == 2 {
                0
            } else {
                col
            };
            let hi = if mode == 1 {
                col + 1
            } else {
                b.cols as int
            };
            &&& rows_only(b, c)
            &&& columns_erased(b.lines[row], c.lines[row], lo, hi, s.pen.bg)
            &&& forall|i: int| 0 <= i < b.rows && i != row ==> #[trigger] c.lines[i] == b.lines[i]
            &&& c.cursor == (Cursor { pending_wrap: false, ..b.cursor })
            &&& front_only(s, t)
        }),
{
    lemma_csi_edits(s, mode, 75);
    let b = s.active();
    let (row, col) = (b.cursor.row as int, b.cursor.col as int);
    let r = b.lines[row];
    lemma_columns_erased(r, b.cols as int, col, b.cols as int, s.blank());
    lemma_columns_erased(r, b.cols as int, 0, col + 1, s.blank());
    lemma_columns_erased(r, b.cols as int, 0, b.cols as int, s.blank());
}

/// Erasing in the display from the cursor on (`J` without a number, or 0): every cell at or
/// after the cursor in reading order is a space in the pen's background, and every cell
/// before it stays, but for the left half of a wide character whose right half the cursor is
/// on.
pub proof fn lemma_erase_display_below(s: ScreenView, mode: u16)
    requires
        s.wf(),
        mode != 1 && mode != 2 && mode != 3,
    ensures
        ({
            let b = s.active();
            let t = csi(s, mode, 74);
            let c = t.active();
            let (row, col) = (b.cursor.row as int, b.cursor.col as int);
            &&& forall|r: int, k: int|
                0 <= r < b.rows && 0 <= k < b.cols && (r > row || (r == row && k >= col))
                    ==> #[trigger] c.cell_at(r, k) == space_on(s.pen.bg)
            &&& forall|r: int, k: int|
                0 <= r < b.rows && 0 <= k < b.cols && (r < row || (r == row && k < col))
                    ==> #[trigger] c.cell_at(r, k) == (if r == row && k == col - 1 && b.cell_at(
                    row,
                    col,
                ).attrs.0 & 256 == 256 {
                    space_on(s.pen.bg)
                } else {
                    b.cell_at(r, k)
                })
            &&& columns_erased(b.lines[row], c.lines[row], col, b.cols as int, s.pen.bg)
            &&& forall|i: int|
                row < i < b.rows ==> empty_row(#[trigger] c.lines[i], b.cols as int, s.pen.bg)
            &&& forall|i: int| 0 <= i < row ==> #[trigger] c.lines[i] == b.lines[i]
            &&& rows_only(b, c)
            &&& c.cursor == (Cursor { pending_wrap: false, ..b.cursor })
            &&& front_only(s, t)
            &&& s.display_erased(mode) == t
        }),
{
    lemma_csi_edits(s, mode, 74);
    let b = s.active();
    let (row, col) = (b.cursor.row as int, b.cursor.col as int);
    lemma_columns_erased(b.lines[row], b.cols as int, col, b.cols as int, s.blank());
    let c = csi(s, mode, 74).active();
    assert(columns_erased(b.lines[row], c.lines[row], col, b.cols as int, s.pen.bg));
    assert forall|i: int| 0 <= i < b.rows implies (#[trigger] b.lines[i]).cells.len() == b.cols by {
        assert(b.lines[i].wf(b.cols as int));
    }
}

/// Erasing in the display up to the cursor (`J` with 1): every cell at or before the cursor in
/// reading order is a space in the pen's background, and every cell after it stays, but for
/// the right half of a wide character whose left half the cursor is on.
pub proof fn lemma_erase_display_above(s: ScreenView)
    requires
        s.wf(),
    ensures
        ({
            let b = s.active();
            let t = csi(s, 1, 74);
            let c = t.active();
            let (row, col) = (b.cursor.row as int, b.cursor.col as int);
            &&& forall|r: int, k: int|
                0 <= r < b.rows && 0 <= k < b.cols && (r < row || (r == row && k <= col))
                    ==> #[trigger] c.cell_at(r, k) == space_on(s.pen.bg)
            &&& forall|r: int, k: int|
                0 <= r < b.rows && 0 <= k < b.cols && (r > row || (r == row && k > col))
                    ==> #[trigger] c.cell_at(r, k) == (if r == row && k == col + 1 && b.cell_at(
                    row,
                    col,
                ).attrs.0 & 128 == 128 {
                    space_on(s.pen.bg)
                } else {
                    b.cell_at(r, k)
                })
            &&& columns_erased(b.lines[row], c.lines[row], 0, col + 1, s.pen.bg)
            &&& forall|i: int|
                0 <= i < row ==> empty_row(#[trigger] c.lines[i], b.cols as int, s.pen.bg)
            &&& forall|i: int| row < i < b.rows ==> #[trigger] c.lines[i] == b.lines[i]
            &&& rows_only(b, c)
            &&& c.cursor == (Cursor { pending_wrap: false, ..b.cursor })
            &&& front_only(s, t)
            &&& s.display_erased(1) == t
        }),
{
    lemma_csi_edits(s, 1, 74);
    let b = s.active();
    let (row, col) = (b.cursor.row as int, b.cursor.col as int);
    lemma_columns_erased(b.lines[row], b.cols as int, 0, col + 1, s.blank());
    let c = csi(s, 1, 74).active();
    assert(columns_erased(b.lines[row], c.lines[row], 0, col + 1, s.pen.bg));
    assert forall|i: int| 0 <= i < b.rows implies (#[trigger] b.lines[i]).cells.len() == b.cols by {
        assert(b.lines[i].wf(b.cols as int));
    }
}

/// Erasing the whole display (`J` with 2), and the history with it (with 3): every row is
/// empty in the pen's background and the names of lines end. The history stays under 2 and
/// goes under 3, which brings the view to the bottom; what was counted as gone grows by it.
pub proof fn lemma_erase_display_whole(s: ScreenView, mode: u16)
    requires
        s.wf(),
        mode == 2 || mode == 3,
    ensures
        ({
            let b = s.active();
            let t = csi(s, mode, 74);
            let c = t.active();
            &&& c.lines.len() == b.rows
            &&& forall|i: int|
                0 <= i < b.rows ==> empty_row(#[trigger] c.lines[i], b.cols as int, s.pen.bg)
            &&& c.cursor == (Cursor { pending_wrap: false, ..b.cursor })
            &&& c == (BufferView {
                lines: c.lines,
                cursor: c.cursor,
                scrollback: c.scrollback,
                evicted: c.evicted,
                ..b
            })
            &&& t.epoch != s.epoch && t.prompts.len() == 0
            &&& if mode == 2 {
                c.scrollback == b.scrollback && c.evicted == b.evicted && t.view_offset
                    == s.view_offset
            } else {
                c.scrollback.len() == 0 && t.view_offset == 0 && (b.evicted + b.scrollback.len()
                    <= u64::MAX ==> c.evicted == b.evicted + b.scrollback.len())
            }
            &&& front_only(
                ScreenView {
                    epoch: t.epoch,
                    prompts: t.prompts,
                    view_offset: t.view_offset,
                    ..s
                },
                t,
            )
        }),
{
    lemma_csi_edits(s, mode, 74);
}

/// Erasing characters (`X`) empties as many cells from the cursor on as asked, shifting none.
pub proof fn lemma_erase_chars(s: ScreenView, n: u16)
    requires
        s.wf(),
    ensures
        ({
            let b = s.active();
            let t = csi(s, n, 88);
            let c = t.active();
            let (row, col) = (b.cursor.row as int, b.cursor.col as int);
            let m = asked(n as int, b.cols - col);
            &&& rows_only(b, c)
            &&& columns_erased(b.lines[row], c.lines[row], col, col + m, s.pen.bg)
            &&& forall|i: int| 0 <= i < b.rows && i != row ==> #[trigger] c.lines[i] == b.lines[i]
            &&& c.cursor == (Cursor { pending_wrap: false, ..b.cursor })
            &&& front_only(s, t)
        }),
{
    lemma_csi_edits(s, n, 88);
    let b = s.active();
    let (row, col) = (b.cursor.row as int, b.cursor.col as int);
    let r = b.lines[row];
    let m = asked(n as int, b.cols - col);
    lemma_columns_erased(r, b.cols as int, col, col + m, s.blank());
    let k = if n < 1 {
        1
    } else {
        n as int
    };
    assert(r.erase(col, col + k, s.blank()) =~= r.erase(col, col + m, s.blank()));
}

/// A wide character is cut by the boundary before column `j`.
pub open spec fn cut_before(r: RowView, j: int) -> bool {
    0 < j < r.cells.len() && r.cells[j].attrs.0 & 256 == 256
}

/// A row with `m` spaces opened at `col`, in terms of its cells.
pub proof fn lemma_row_insert(r: RowView, cols: int, col: int, n: int, blank: Cell)
    requires
        r.wf(cols),
        0 <= col < cols,
        n >= 1,
    ensures
        ({
            let m = lesser(n, cols - col);
            let q = r.insert(col, n, blank);
            &&& q.cells.len() == cols && !q.wrapped
            &&& forall|j: int|
                0 <= j < col ==> #[trigger] q.cells[j] == (if j == col - 1 && cut_before(r, col) {
                    blank
                } else {
                    r.cells[j]
                })
            &&& forall|j: int| col <= j < col + m ==> #[trigger] q.cells[j] == blank
            &&& forall|j: int|
                col + m <= j < cols ==> #[trigger] q.cells[j] == (if (j == col + m && cut_before(
                    r,
                    col,
                )) || (j == cols - 1 && cut_before(r, cols - m)) {
                    blank
                } else {
                    r.cells[j - m]
                })
        }),
{
    let m = lesser(n, cols - col);
    let one = r.split(col, blank);
    let two = one.split(cols - m, blank);
    let q = r.insert(col, n, blank);
    assert(crate::row::pair_at(r.cells, col));
    assert(forall|j: int| 0 <= j < cols ==> #[trigger] one.cells[j] == (if (j == col - 1 || j == col)
        && cut_before(r, col) {
        blank
    } else {
        r.cells[j]
    }));
    if cols - m == col + 1 && cut_before(r, col) {
        assert(crate::row::pair_at(r.cells, col + 1));
    }
    assert(crate::row::pair_at(r.cells, cols - m));
    assert(one.cells.len() == cols && two.cells.len() == cols);
    assert forall|j: int| 0 <= j < cols implies #[trigger] q.cells[j] == (if j < col {
        two.cells[j]
    } else if j < col + m {
        blank
    } else {
        two.cells[j - m]
    }) by {}
}

/// A row with `m` cells taken out at `col`, in terms of its cells.
pub proof fn lemma_row_delete(r: RowView, cols: int, col: int, n: int, blank: Cell)
    requires
        r.wf(cols),
        0 <= col < cols,
        n >= 1,
    ensures
        ({
            let m = lesser(n, cols - col);
            let q = r.delete(col, n, blank);
            &&& q.cells.len() == cols && !q.wrapped
            &&& forall|j: int|
                0 <= j < col ==> #[trigger] q.cells[j] == (if j == col - 1 && cut_before(r, col) {
                    blank
                } else {
                    r.cells[j]
                })
            &&& forall|j: int|
                col <= j < cols - m ==> #[trigger] q.cells[j] == (if j == col && cut_before(
                    r,
                    col + m,
                ) {
                    blank
                } else {
                    r.cells[j + m]
                })
            &&& forall|j: int| cols - m <= j < cols ==> #[trigger] q.cells[j] == blank
        }),
{
    let m = lesser(n, cols - col);
    let one = r.split(col, blank);
    let two = one.split(col + m, blank);
    let q = r.delete(col, n, blank);
    assert(crate::row::pair_at(r.cells, col));
    assert(one.cells.len() == cols && two.cells.len() == cols);
}

/// A column no mark stands in has none.
proof fn lemma_no_marks(marks: Seq<CombiningMark>, at: int)
    requires
        forall|i: int| 0 <= i < marks.len() ==> (#[trigger] marks[i]).col != at,
    ensures
        marks_of(marks, at) == Seq::<char>::empty(),
    decreases marks.len(),
{
    if marks.len() > 0 {
        let init = marks.drop_last();
        assert forall|i: int| 0 <= i < init.len() implies (#[trigger] init[i]).col != at by {
            assert(init[i] == marks[i]);
        }
        lemma_no_marks(init, at);
        assert(marks[marks.len() - 1].col != at);
    }
}

/// Marks moved right from a column on.
proof fn lemma_marks_moved_right(marks: Seq<CombiningMark>, from: int, by: int, at: int)
    requires
        0 <= by,
        forall|i: int|
            0 <= i < marks.len() && (#[trigger] marks[i]).col >= from ==> marks[i].col + by
                <= usize::MAX,
    ensures
        marks_of(shift_marks(marks, from, by), at) == (if at < from {
            marks_of(marks, at)
        } else if at < from + by {
            Seq::empty()
        } else {
            marks_of(marks, at - by)
        }),
    decreases marks.len(),
{
    if marks.len() > 0 {
        let init = marks.drop_last();
        assert forall|i: int| 0 <= i < init.len() && (#[trigger] init[i]).col >= from implies init[i].col
            + by <= usize::MAX by {
            assert(init[i] == marks[i]);
        }
        lemma_marks_moved_right(init, from, by, at);
        let t = shift_marks(marks, from, by);
        assert(t.drop_last() =~= shift_marks(init, from, by));
        let m = marks[marks.len() - 1];
        assert(m == marks.last());
        assert(m.col >= from ==> t.last().col == m.col + by);
    }
}

/// Marks moved left from a column on, where none stand in the way.
proof fn lemma_marks_moved_left(marks: Seq<CombiningMark>, from: int, by: int, at: int)
    requires
        0 <= by <= from,
        forall|i: int|
            0 <= i < marks.len() ==> !(from - by <= (#[trigger] marks[i]).col < from),
    ensures
        marks_of(shift_marks(marks, from, -by), at) == (if at < from - by {
            marks_of(marks, at)
        } else {
            marks_of(marks, at + by)
        }),
    decreases marks.len(),
{
    if marks.len() > 0 {
        let init = marks.drop_last();
        assert forall|i: int| 0 <= i < init.len() implies !(from - by <= (#[trigger] init[i]).col
            < from) by {
            assert(init[i] == marks[i]);
        }
        lemma_marks_moved_left(init, from, by, at);
        let t = shift_marks(marks, from, -by);
        assert(t.drop_last() =~= shift_marks(init, from, -by));
        let m = marks[marks.len() - 1];
        assert(m == marks.last());
        assert(m.col >= from ==> t.last().col == m.col - by);
    }
}

/// The marks of a row that is made ready to be cut go with the wide character the cut parts.
proof fn lemma_split_marks(r: RowView, col: int, blank: Cell, at: int)
    ensures
        marks_of(r.split(col, blank).marks, at) == (if cut_before(r, col) && (at == col || at == col
            - 1) {
            Seq::empty()
        } else {
            marks_of(r.marks, at)
        }),
{
    lemma_marks_of_dropped(r.marks, col - 1, col + 1, at);
}

/// The marks of a row with `m` spaces opened at `col` move with their cells.
pub proof fn lemma_row_insert_marks(r: RowView, cols: int, col: int, n: int, blank: Cell, j: int)
    requires
        cols <= usize::MAX,
        r.wf(cols),
        narrow_cell(blank),
        0 <= col < cols,
        n >= 1,
        0 <= j < cols,
    ensures
        ({
            let m = lesser(n, cols - col);
            marks_of(r.insert(col, n, blank).marks, j) == (if j < col {
                if j == col - 1 && cut_before(r, col) {
                    Seq::empty()
                } else {
                    marks_of(r.marks, j)
                }
            } else if j < col + m || (j == col + m && cut_before(r, col)) || (j == cols - 1
                && cut_before(r, cols - m)) {
                Seq::empty()
            } else {
                marks_of(r.marks, j - m)
            })
        }),
{
    let m = lesser(n, cols - col);
    let one = r.split(col, blank);
    let two = one.split(cols - m, blank);
    let lo = if col > cols - m {
        col
    } else {
        cols - m
    };
    let kept = drop_marks(two.marks, lo, cols);
    crate::row::lemma_split_wf(r, cols, col, blank);
    crate::row::lemma_split_wf(one, cols, cols - m, blank);
    crate::row::lemma_drop_marks(two.marks, lo, cols, cols);
    assert forall|i: int| 0 <= i < kept.len() && (#[trigger] kept[i]).col >= col implies kept[i].col
        + m <= usize::MAX by {
        assert(!(lo <= kept[i].col < cols));
        assert(kept[i].col < cols);
    }
    assert(r.insert(col, n, blank).marks == shift_marks(kept, col, m));
    lemma_marks_moved_right(kept, col, m, j);
    let at = if j < col {
        j
    } else {
        j - m
    };
    lemma_marks_of_dropped(two.marks, lo, cols, at);
    lemma_split_marks(one, cols - m, blank, at);
    lemma_split_marks(r, col, blank, at);
    assert(crate::row::pair_at(r.cells, col));
    assert(cols - m < cols ==> crate::row::pair_at(r.cells, cols - m));
    if cut_before(r, col) && col + 1 < cols {
        assert(crate::row::pair_at(r.cells, col + 1));
    }
    lemma_narrow_bits(blank);
    assert(cut_before(one, cols - m) == (cut_before(r, cols - m) && !(cols - m == col)));
}

/// The marks of a row with `m` cells taken out at `col` move with their cells.
pub proof fn lemma_row_delete_marks(r: RowView, cols: int, col: int, n: int, blank: Cell, j: int)
    requires
        cols <= usize::MAX,
        r.wf(cols),
        narrow_cell(blank),
        0 <= col < cols,
        n >= 1,
        0 <= j < cols,
    ensures
        ({
            let m = lesser(n, cols - col);
            marks_of(r.delete(col, n, blank).marks, j) == (if j < col {
                if j == col - 1 && cut_before(r, col) {
                    Seq::empty()
                } else {
                    marks_of(r.marks, j)
                }
            } else if j >= cols - m || (j == col && cut_before(r, col + m)) {
                Seq::empty()
            } else {
                marks_of(r.marks, j + m)
            })
        }),
{
    let m = lesser(n, cols - col);
    let one = r.split(col, blank);
    let two = one.split(col + m, blank);
    let kept = drop_marks(two.marks, col, col + m);
    crate::row::lemma_split_wf(r, cols, col, blank);
    crate::row::lemma_split_wf(one, cols, col + m, blank);
    crate::row::lemma_drop_marks(two.marks, col, col + m, cols);
    assert(r.delete(col, n, blank).marks == shift_marks(kept, col + m, -m));
    lemma_marks_moved_left(kept, col + m, m, j);
    let at = if j < col {
        j
    } else {
        j + m
    };
    lemma_marks_of_dropped(two.marks, col, col + m, at);
    lemma_split_marks(one, col + m, blank, at);
    lemma_split_marks(r, col, blank, at);
    assert(crate::row::pair_at(r.cells, col));
    if col + m < cols {
        assert(crate::row::pair_at(r.cells, col + m));
    }
    lemma_narrow_bits(blank);
    if at >= cols {
        lemma_no_marks(r.marks, at);
    }
    if cut_before(r, col) && col + 1 < cols {
        assert(crate::row::pair_at(r.cells, col + 1));
    }
    assert(cut_before(one, col + m) == cut_before(r, col + m));
}

proof fn lemma_narrow_bits(c: Cell)
    requires
        narrow_cell(c),
    ensures
        c.attrs.0 & 256 != 256 && c.attrs.0 & 128 != 128,
{
}

/// Inserting characters (`@`) opens as many spaces at the cursor as asked, moves what stood
/// there and behind it to the right, and drops what passes the edge. A wide character cut by
/// the cursor, or by the edge, goes blank on both sides of the cut. The line ends in the row.
pub proof fn lemma_insert_chars(s: ScreenView, n: u16)
    requires
        s.wf(),
    ensures
        ({
            let b = s.active();
            let t = csi(s, n, 64);
            let c = t.active();
            let (row, col, cols) = (b.cursor.row as int, b.cursor.col as int, b.cols as int);
            let m = asked(n as int, cols - col);
            let r = b.lines[row];
            let q = c.lines[row];
            &&& rows_only(b, c)
            &&& q.cells.len() == cols && !q.wrapped
            &&& forall|j: int|
                0 <= j < col ==> #[trigger] q.cells[j] == (if j == col - 1 && cut_before(r, col) {
                    space_on(s.pen.bg)
                } else {
                    r.cells[j]
                })
            &&& forall|j: int| col <= j < col + m ==> #[trigger] q.cells[j] == space_on(s.pen.bg)
            &&& forall|j: int|
                col + m <= j < cols ==> #[trigger] q.cells[j] == (if (j == col + m && cut_before(
                    r,
                    col,
                )) || (j == cols - 1 && cut_before(r, cols - m)) {
                    space_on(s.pen.bg)
                } else {
                    r.cells[j - m]
                })
            &&& forall|j: int|
                0 <= j < cols ==> #[trigger] marks_of(q.marks, j) == (if j < col {
                    if j == col - 1 && cut_before(r, col) {
                        Seq::empty()
                    } else {
                        marks_of(r.marks, j)
                    }
                } else if j < col + m || (j == col + m && cut_before(r, col)) || (j == cols - 1 && cut_before(r, cols - m)) {
                    Seq::empty()
                } else {
                    marks_of(r.marks, j - m)
                })
            &&& forall|i: int| 0 <= i < b.rows && i != row ==> #[trigger] c.lines[i] == b.lines[i]
            &&& c.cursor == (Cursor { pending_wrap: false, ..b.cursor })
            &&& front_only(s, t)
        }),
{
    lemma_csi_edits(s, n, 64);
    let b = s.active();
    let (row, col) = (b.cursor.row as int, b.cursor.col as int);
    assert(b.lines[row].wf(b.cols as int));
    let k = if n < 1 {
        1
    } else {
        n as int
    };
    lemma_row_insert(b.lines[row], b.cols as int, col, k, s.blank());
    crate::screen::lemma_blank_narrow(s);
    let cols = b.cols as int;
    let m = asked(n as int, cols - col);
    let r = b.lines[row];
    let q = csi(s, n, 64).active().lines[row];
    assert(q == r.insert(col, k, s.blank()));
    assert forall|j: int| 0 <= j < cols implies #[trigger] marks_of(q.marks, j) == (if j < col {
        if j == col - 1 && cut_before(r, col) {
            Seq::empty()
        } else {
            marks_of(r.marks, j)
        }
    } else if j < col + m || (j == col + m && cut_before(r, col)) || (j == cols - 1 && cut_before(r, cols - m)) {
        Seq::empty()
    } else {
        marks_of(r.marks, j - m)
    }) by {
        lemma_row_insert_marks(r, cols, col, k, s.blank(), j);
    }
}

/// Deleting characters (`P`) takes out as many cells at the cursor as asked, moves what stood
/// behind them to the left, and fills the end of the row with spaces. A wide character cut by
/// either end of what goes is blank on both sides of the cut. The line ends in the row.
pub proof fn lemma_delete_chars(s: ScreenView, n: u16)
    requires
        s.wf(),
    ensures
        ({
            let b = s.active();
            let t = csi(s, n, 80);
            let c = t.active();
            let (row, col, cols) = (b.cursor.row as int, b.cursor.col as int, b.cols as int);
            let m = asked(n as int, cols - col);
            let r = b.lines[row];
            let q = c.lines[row];
            &&& rows_only(b, c)
            &&& q.cells.len() == cols && !q.wrapped
            &&& forall|j: int|
                0 <= j < col ==> #[trigger] q.cells[j] == (if j == col - 1 && cut_before(r, col) {
                    space_on(s.pen.bg)
                } else {
                    r.cells[j]
                })
            &&& forall|j: int|
                col <= j < cols - m ==> #[trigger] q.cells[j] == (if j == col && cut_before(
                    r,
                    col + m,
                ) {
                    space_on(s.pen.bg)
                } else {
                    r.cells[j + m]
                })
            &&& forall|j: int| cols - m <= j < cols ==> #[trigger] q.cells[j] == space_on(s.pen.bg)
            &&& forall|j: int|
                0 <= j < cols ==> #[trigger] marks_of(q.marks, j) == (if j < col {
                    if j == col - 1 && cut_before(r, col) {
                        Seq::empty()
                    } else {
                        marks_of(r.marks, j)
                    }
                } else if j >= cols - m || (j == col && cut_before(r, col + m)) {
                    Seq::empty()
                } else {
                    marks_of(r.marks, j + m)
                })
            &&& forall|i: int| 0 <= i < b.rows && i != row ==> #[trigger] c.lines[i] == b.lines[i]
            &&& c.cursor == (Cursor { pending_wrap: false, ..b.cursor })
            &&& front_only(s, t)
        }),
{
    lemma_csi_edits(s, n, 80);
    let b = s.active();
    let (row, col) = (b.cursor.row as int, b.cursor.col as int);
    assert(b.lines[row].wf(b.cols as int));
    let k = if n < 1 {
        1
    } else {
        n as int
    };
    lemma_row_delete(b.lines[row], b.cols as int, col, k, s.blank());
    crate::screen::lemma_blank_narrow(s);
    let cols = b.cols as int;
    let m = asked(n as int, cols - col);
    let r = b.lines[row];
    let q = csi(s, n, 80).active().lines[row];
    assert(q == r.delete(col, k, s.blank()));
    assert forall|j: int| 0 <= j < cols implies #[trigger] marks_of(q.marks, j) == (if j < col {
        if j == col - 1 && cut_before(r, col) {
            Seq::empty()
        } else {
            marks_of(r.marks, j)
        }
    } else if j >= cols - m || (j == col && cut_before(r, col + m)) {
        Seq::empty()
    } else {
        marks_of(r.marks, j + m)
    }) by {
        lemma_row_delete_marks(r, cols, col, k, s.blank(), j);
    }
}

} // verus!
