//! Laying lines out in rows and unwrapping the rows again gives the lines back: what a
//! narrow window broke, a wide one rejoins.
use vstd::prelude::*;
use crate::buffer::{rows_wf, side, BufferView, MAX_SIDE};
use crate::cell::{narrow_cell, Cell};
use crate::reflow::{
    chunk_clips, chunk_end, chunk_next, chunk_row, content_len, holding, kept_count, laid_rows,
    laid_starts, lay_from, lay_line, lay_lines, lemma_chunk, lemma_content_len, lemma_kept_count,
    lemma_reflow_lines_wf, lemma_reflowed_wf, lemma_stream_wf, lemma_unwrap_wf, lemma_window_marks,
    logical_lines, reflow_cursor, reflow_lines, reflow_map, reflow_stream, reflow_top, reflowed,
    row_origins, unwrap, window_marks, wrap_padding, Laid, LineView, MAX_LOGICAL_COLS,
};
use crate::reflow_laws::{lemma_holding_holds, lemma_lay_lines_at};
use crate::row::{lemma_marks_of_dropped, marks_of, pair_at, paired, CombiningMark, RowView};

verus! {

/// Where the row at column `at` is full and the next one begins with a wide character, its
/// last cell is text. An unmarked blank there could not be told from the padding that a wide
/// character leaves when it does not fit.
pub open spec fn seam_kept(line: LineView, cols: int, at: int) -> bool {
    let end = chunk_end(line.cells, cols, at);
    end == at + cols && end < line.cells.len() && line.cells[end].leader() ==> line.cells[end - 1]
        != Cell::blank() || marks_of(line.marks, end - 1).len() > 0
}

/// A line that comes back as it was: it ends in something, it is short of the cap, no seam
/// hides a blank, and a single column holds only what fits in it.
pub open spec fn rejoinable(line: LineView, cols: int) -> bool {
    &&& line.wf()
    &&& line.cells.len() < MAX_LOGICAL_COLS
    &&& line.cells.len() > 0 ==> line.cells.last() != Cell::blank() || marks_of(
        line.marks,
        line.cells.len() - 1,
    ).len() > 0
    &&& forall|t: int|
        0 <= t < lay_line(line, cols).len() ==> seam_kept(
            line,
            cols,
            (#[trigger] lay_line(line, cols)[t]).start,
        )
    &&& cols >= 2 || forall|i: int|
        0 <= i < line.cells.len() ==> narrow_cell(#[trigger] line.cells[i])
}

/// Two lines of the same cells with the same marks on each.
pub open spec fn same_text(a: LineView, b: LineView) -> bool {
    &&& a.cells == b.cells
    &&& forall|c: int|
        0 <= c < b.cells.len() ==> #[trigger] marks_of(a.marks, c) == marks_of(b.marks, c)
}

proof fn lemma_marks_of_join(a: Seq<CombiningMark>, b: Seq<CombiningMark>, c: int)
    ensures
        marks_of(a + b, c) == marks_of(a, c) + marks_of(b, c),
    decreases b.len(),
{
    if b.len() == 0 {
        assert(a + b =~= a);
    } else {
        lemma_marks_of_join(a, b.drop_last(), c);
        assert((a + b).drop_last() =~= a + b.drop_last());
    }
}

proof fn lemma_marks_of_window(marks: Seq<CombiningMark>, lo: int, hi: int, c: int)
    requires
        0 <= lo <= hi,
        0 <= c,
    ensures
        marks_of(window_marks(marks, lo, hi), c) == if lo + c < hi {
            marks_of(marks, lo + c)
        } else {
            Seq::empty()
        },
    decreases marks.len(),
{
    if marks.len() > 0 {
        let rest = window_marks(marks.drop_last(), lo, hi);
        let m = marks.last();
        lemma_marks_of_window(marks.drop_last(), lo, hi, c);
        if lo <= m.col < hi {
            assert(window_marks(marks, lo, hi).drop_last() =~= rest);
        }
    }
}

/// Marks counted on by `base`.
pub open spec fn counted_on(marks: Seq<CombiningMark>, base: int) -> Seq<CombiningMark> {
    marks.map_values(
        |m: CombiningMark| CombiningMark { col: (base + m.col) as usize, ch: m.ch },
    )
}

proof fn lemma_marks_of_counted(marks: Seq<CombiningMark>, base: int, c: int)
    requires
        0 <= base,
        forall|i: int| 0 <= i < marks.len() ==> base + (#[trigger] marks[i]).col <= usize::MAX,
    ensures
        marks_of(counted_on(marks, base), c) == if c >= base {
            marks_of(marks, c - base)
        } else {
            Seq::empty()
        },
    decreases marks.len(),
{
    if marks.len() > 0 {
        let rest = marks.drop_last();
        assert forall|i: int| 0 <= i < rest.len() implies base + (#[trigger] rest[i]).col
            <= usize::MAX by {
            assert(rest[i] == marks[i]);
        }
        lemma_marks_of_counted(rest, base, c);
        assert(counted_on(marks, base).drop_last() =~= counted_on(rest, base));
        assert(marks[marks.len() - 1] == marks.last());
    }
}

/// The rows of a line follow one another, each with the column it starts at.
proof fn lemma_lay_steps(line: LineView, cols: int, i: int, t: int)
    requires
        line.wf(),
        1 <= cols,
        0 <= i < line.cells.len(),
        0 <= t < lay_from(line, cols, i).len(),
    ensures
        ({
            let all = lay_from(line, cols, i);
            let at = all[t].start;
            &&& i <= at < line.cells.len()
            &&& all[t].row == chunk_row(line, cols, at)
            &&& t + 1 < all.len() <==> chunk_next(line.cells, cols, at) < line.cells.len()
            &&& t + 1 < all.len() ==> all[t + 1].start == chunk_next(line.cells, cols, at)
            &&& t == 0 ==> at == i
        }),
    decreases line.cells.len() - i,
{
    let next = chunk_next(line.cells, cols, i);
    let rest = lay_from(line, cols, next);
    let all = lay_from(line, cols, i);
    lemma_chunk(line.cells, cols, i);
    assert(all[0] == Laid { start: i, row: chunk_row(line, cols, i) });
    if t > 0 {
        assert(all[t] == rest[t - 1]);
        lemma_lay_steps(line, cols, next, t - 1);
        if t + 1 < all.len() {
            assert(all[t + 1] == rest[t]);
        }
    } else if next < line.cells.len() {
        assert(all[1] == rest[0]);
        lemma_lay_steps(line, cols, next, 0);
    }
}

/// The part of a line before its column `at`, put back together.
pub open spec fn so_far(cur: LineView, line: LineView, at: int) -> bool {
    &&& cur.cells == line.cells.take(at)
    &&& forall|c: int|
        0 <= c ==> #[trigger] marks_of(cur.marks, c) == if c < at {
            marks_of(line.marks, c)
        } else {
            Seq::empty()
        }
}

/// Joining the marks of the row at column `at` puts them back on the columns they came from.
proof fn lemma_marks_rejoin(cur: LineView, line: LineView, cols: int, at: int, padded: bool)
    requires
        so_far(cur, line, at),
        line.wf(),
        1 <= cols <= MAX_SIDE,
        0 <= at < line.cells.len() < MAX_LOGICAL_COLS,
    ensures
        forall|c: int|
            0 <= c ==> #[trigger] marks_of(
                cur.joined(chunk_row(line, cols, at), padded).marks,
                c,
            ) == if c < chunk_end(line.cells, cols, at) {
                marks_of(line.marks, c)
            } else {
                Seq::empty()
            },
{
    let end = chunk_end(line.cells, cols, at);
    lemma_chunk(line.cells, cols, at);
    let row = chunk_row(line, cols, at);
    let base = cur.cells.len() as int;
    assert(base == at);
    let window = window_marks(line.marks, at, end);
    assert(row.marks == window);
    let joined = cur.joined(row, padded);
    assert(joined.marks =~= cur.marks + counted_on(window, base));
    lemma_window_marks(line.marks, at, end);
    assert forall|c: int| 0 <= c implies #[trigger] marks_of(joined.marks, c) == if c < end {
        marks_of(line.marks, c)
    } else {
        Seq::empty()
    } by {
        lemma_marks_of_join(cur.marks, counted_on(window, base), c);
        lemma_marks_of_counted(window, base, c);
        if c >= at {
            lemma_marks_of_window(line.marks, at, end, c - at);
        }
        assert(marks_of(cur.marks, c) == if c < at {
            marks_of(line.marks, c)
        } else {
            Seq::empty()
        });
        assert(marks_of(line.marks, c) + Seq::<char>::empty() =~= marks_of(line.marks, c));
        assert(Seq::<char>::empty() + marks_of(line.marks, c) =~= marks_of(line.marks, c));
        assert(Seq::<char>::empty() + Seq::<char>::empty() =~= Seq::<char>::empty());
    }
}

/// A row that is wrapped into the next gives the line back as far as the next one starts.
proof fn lemma_wrapped_row_rejoins(
    cur: LineView,
    line: LineView,
    cols: int,
    rows: Seq<RowView>,
    k: int,
    at: int,
)
    requires
        so_far(cur, line, at),
        rejoinable(line, cols),
        seam_kept(line, cols, at),
        1 <= cols <= MAX_SIDE,
        0 <= at < line.cells.len(),
        0 <= k,
        k + 1 < rows.len(),
        rows[k] == chunk_row(line, cols, at),
        chunk_next(line.cells, cols, at) < line.cells.len(),
        rows[k + 1] == chunk_row(line, cols, chunk_next(line.cells, cols, at)),
    ensures
        so_far(
            cur.joined(rows[k], wrap_padding(rows, k)),
            line,
            chunk_next(line.cells, cols, at),
        ),
        rows[k].wrapped,
{
    let cells = line.cells;
    let end = chunk_end(cells, cols, at);
    let next = chunk_next(cells, cols, at);
    lemma_chunk(cells, cols, at);
    lemma_chunk(cells, cols, next);
    assert(pair_at(cells, at));
    assert(pair_at(cells, next));
    assert(!chunk_clips(cells, cols, at));
    assert(!chunk_clips(cells, cols, next));
    assert(next == end);
    let row = rows[k];
    assert(rows[k + 1].cells[0] == cells.subrange(next, chunk_end(cells, cols, next))[0]);
    assert(rows[k + 1].cells[0] == cells[next]);
    let joined = cur.joined(row, wrap_padding(rows, k));
    assert forall|j: int| 0 <= j < end - at implies #[trigger] row.cells[j] == cells[at + j] by {
        assert(cells.subrange(at, end)[j] == cells[at + j]);
    }
    lemma_marks_of_window(line.marks, at, end, cols - 1);
    if end - at == cols {
        assert(row.cells.last() == cells[end - 1]);
        assert(!wrap_padding(rows, k));
        assert(joined.cells =~= cells.take(next));
    } else {
        assert(end == at + cols - 1 && cells[end].leader());
        assert(row.cells.last() == Cell::blank());
        assert(wrap_padding(rows, k));
        assert(joined.cells =~= cells.take(next));
    }
    lemma_marks_rejoin(cur, line, cols, at, wrap_padding(rows, k));
}

/// The last row of a line closes it, and its padding is trimmed away.
proof fn lemma_last_row_rejoins(cur: LineView, line: LineView, cols: int, at: int)
    requires
        so_far(cur, line, at),
        rejoinable(line, cols),
        1 <= cols <= MAX_SIDE,
        0 <= at < line.cells.len(),
        chunk_next(line.cells, cols, at) >= line.cells.len(),
    ensures
        same_text(cur.joined(chunk_row(line, cols, at), false).trimmed(), line),
        !chunk_row(line, cols, at).wrapped,
{
    let cells = line.cells;
    let end = chunk_end(cells, cols, at);
    lemma_chunk(cells, cols, at);
    assert(pair_at(cells, at));
    assert(!chunk_clips(cells, cols, at));
    assert(end == cells.len());
    let row = chunk_row(line, cols, at);
    let joined = cur.joined(row, false);
    assert forall|j: int| 0 <= j < end - at implies #[trigger] row.cells[j] == cells[at + j] by {
        assert(cells.subrange(at, end)[j] == cells[at + j]);
    }
    assert forall|j: int| 0 <= j < cells.len() implies #[trigger] joined.cells[j] == cells[j] by {
        if j >= at {
            assert(row.cells[j - at] == cells[j]);
        } else {
            assert(cur.cells[j] == cells[j]);
        }
    }
    lemma_marks_rejoin(cur, line, cols, at, false);
    lemma_padding_goes(joined, cells.len() as int, joined.cells.len() as int);
    let done = joined.trimmed();
    assert(done.cells =~= cells);
    assert forall|c: int| 0 <= c < cells.len() implies #[trigger] marks_of(done.marks, c)
        == marks_of(line.marks, c) by {
        lemma_marks_of_dropped(joined.marks, cells.len() as int, usize::MAX as int, c);
        assert(marks_of(joined.marks, c) == marks_of(line.marks, c));
    }
}

/// Unmarked blanks behind a cell with something in it or on it are all trimmed.
proof fn lemma_padding_goes(line: LineView, len: int, end: int)
    requires
        0 < len <= end <= line.cells.len(),
        line.cells[len - 1] != Cell::blank() || marks_of(line.marks, len - 1).len() > 0,
        forall|j: int|
            len <= j < end ==> #[trigger] line.cells[j] == Cell::blank() && marks_of(
                line.marks,
                j,
            ).len() == 0,
    ensures
        content_len(line, end) == len,
    decreases end,
{
    if end > len {
        assert(line.cells[end - 1] == Cell::blank());
        lemma_padding_goes(line, len, end - 1);
    }
}

/// The rows of some lines, in order.
pub open spec fn rows_of(lines: Seq<LineView>, cols: int) -> Seq<RowView> {
    laid_rows(lay_lines(lines, cols, lines.len() as int))
}

/// The first `j` lines put back together, and nothing open.
pub open spec fn rejoined(lines: Seq<LineView>, cols: int, j: int) -> bool {
    let u = unwrap(rows_of(lines, cols), lay_lines(lines, cols, j).len() as int);
    &&& u.lines.len() == j
    &&& forall|l: int| 0 <= l < j ==> same_text(#[trigger] u.lines[l], lines[l])
    &&& u.cur == LineView::empty()
    &&& !u.pending
}

/// The rows of line `j` before its row `t` give the line back as far as that row starts.
proof fn lemma_rows_rejoin(lines: Seq<LineView>, cols: int, j: int, t: int)
    requires
        forall|l: int| 0 <= l < lines.len() ==> rejoinable(#[trigger] lines[l], cols),
        1 <= cols <= MAX_SIDE,
        0 <= j < lines.len(),
        lines[j].cells.len() > 0,
        rejoined(lines, cols, j),
        0 <= t < lay_line(lines[j], cols).len(),
    ensures
        ({
            let lo = lay_lines(lines, cols, j).len() as int;
            let u = unwrap(rows_of(lines, cols), lo + t);
            &&& u.lines == unwrap(rows_of(lines, cols), lo).lines
            &&& so_far(u.cur, lines[j], lay_line(lines[j], cols)[t].start)
        }),
    decreases t,
{
    let line = lines[j];
    let rows = rows_of(lines, cols);
    let lo = lay_lines(lines, cols, j).len() as int;
    let mine = lay_line(line, cols);
    lemma_lay_steps(line, cols, 0, t);
    if t == 0 {
        assert(line.cells.take(0) =~= Seq::<Cell>::empty());
    } else {
        lemma_rows_rejoin(lines, cols, j, t - 1);
        lemma_lay_steps(line, cols, 0, t - 1);
        let n = lines.len() as int;
        lemma_lay_lines_at(lines, cols, n, j, t - 1);
        lemma_lay_lines_at(lines, cols, n, j, t);
        let before = unwrap(rows, lo + t - 1);
        assert(rows[lo + t - 1] == mine[t - 1].row);
        assert(rows[lo + t] == mine[t].row);
        lemma_wrapped_row_rejoins(before.cur, line, cols, rows, lo + t - 1, mine[t - 1].start);
        lemma_chunk(line.cells, cols, mine[t - 1].start);
    }
}

proof fn lemma_lines_rejoin(lines: Seq<LineView>, cols: int, j: int)
    requires
        forall|l: int| 0 <= l < lines.len() ==> rejoinable(#[trigger] lines[l], cols),
        1 <= cols <= MAX_SIDE,
        0 <= j <= lines.len(),
    ensures
        rejoined(lines, cols, j),
    decreases j,
{
    if j > 0 {
        lemma_lines_rejoin(lines, cols, j - 1);
        let line = lines[j - 1];
        let rows = rows_of(lines, cols);
        let lo = lay_lines(lines, cols, j - 1).len() as int;
        let mine = lay_line(line, cols);
        let n = lines.len() as int;
        assert(rejoinable(line, cols));
        let last = mine.len() - 1;
        if line.cells.len() == 0 {
            lemma_lay_lines_at(lines, cols, n, j - 1, 0);
            let row = rows[lo];
            assert(row == RowView::filled(cols, Cell::blank()));
            let joined = LineView::empty().joined(row, false);
            lemma_all_padding_goes(joined, joined.cells.len() as int);
            assert(joined.trimmed().cells =~= line.cells);
            assert(!wrap_padding(rows, lo));
        } else {
            lemma_chunk(line.cells, cols, 0);
            assert(lay_from(line, cols, 0).len() > 0);
            lemma_rows_rejoin(lines, cols, j - 1, last);
            lemma_lay_steps(line, cols, 0, last);
            lemma_lay_lines_at(lines, cols, n, j - 1, last);
            assert(rows[lo + last] == mine[last].row);
            let before = unwrap(rows, lo + last);
            lemma_last_row_rejoins(before.cur, line, cols, mine[last].start);
            assert(!wrap_padding(rows, lo + last));
        }
        let u = unwrap(rows, lo + last + 1);
        let before = unwrap(rows, lo);
        assert(lay_lines(lines, cols, j).len() == lo + last + 1);
        assert forall|l: int| 0 <= l < j implies same_text(#[trigger] u.lines[l], lines[l]) by {
            if l < j - 1 {
                assert(u.lines[l] == before.lines[l]);
            }
        }
    }
}

proof fn lemma_all_padding_goes(line: LineView, end: int)
    requires
        0 <= end <= line.cells.len(),
        line.marks.len() == 0,
        forall|j: int| 0 <= j < end ==> #[trigger] line.cells[j] == Cell::blank(),
    ensures
        content_len(line, end) == 0,
    decreases end,
{
    if end > 0 {
        assert(line.cells[end - 1] == Cell::blank());
        assert(marks_of(line.marks, end - 1).len() == 0);
        lemma_all_padding_goes(line, end - 1);
    }
}

/// Unwrapping the rows that lines were laid out in gives the lines back, cell for cell and
/// mark for mark, whatever the width: a line broken by a narrow screen is one line again on
/// a wide one.
pub proof fn lemma_rewrap_rejoins(lines: Seq<LineView>, cols: int)
    requires
        forall|l: int| 0 <= l < lines.len() ==> rejoinable(#[trigger] lines[l], cols),
        1 <= cols <= MAX_SIDE,
    ensures
        logical_lines(rows_of(lines, cols)).len() == lines.len(),
        forall|l: int|
            0 <= l < lines.len() ==> same_text(
                #[trigger] logical_lines(rows_of(lines, cols))[l],
                lines[l],
            ),
{
    lemma_lines_rejoin(lines, cols, lines.len() as int);
}

/// A line that fits in the width is one row again.
pub proof fn lemma_fitting_line_is_one_row(line: LineView, cols: int)
    requires
        1 <= cols,
        line.cells.len() <= cols,
        paired(line.cells),
    ensures
        lay_line(line, cols).len() == 1,
        !lay_line(line, cols)[0].row.wrapped,
        forall|i: int|
            0 <= i < line.cells.len() ==> #[trigger] lay_line(line, cols)[0].row.cells[i]
                == line.cells[i],
{
    if line.cells.len() > 0 {
        let cells = line.cells;
        assert(pair_at(cells, 0));
        assert(chunk_end(cells, cols, 0) == cells.len());
        assert(lay_from(line, cols, cells.len() as int).len() == 0);
        assert forall|i: int| 0 <= i < cells.len() implies #[trigger] lay_line(
            line,
            cols,
        )[0].row.cells[i] == cells[i] by {
            assert(cells.subrange(0, cells.len() as int)[i] == cells[i]);
        }
    }
}

/// Empty lines.
pub open spec fn bare_lines(n: nat) -> Seq<LineView> {
    Seq::new(n, |i: int| LineView::empty())
}

proof fn lemma_bare_rows(lines: Seq<LineView>, cols: int, n: nat, k: int)
    requires
        lines.len() <= k <= lines.len() + n,
    ensures
        lay_lines(lines + bare_lines(n), cols, k) =~= lay_lines(
            lines,
            cols,
            lines.len() as int,
        ) + Seq::new(
            (k - lines.len()) as nat,
            |i: int| Laid { start: 0, row: RowView::filled(cols, Cell::blank()) },
        ),
    decreases k,
{
    if k == lines.len() {
        lemma_lay_prefix(lines, bare_lines(n), cols, k);
    } else {
        lemma_bare_rows(lines, cols, n, k - 1);
        assert((lines + bare_lines(n))[k - 1] == LineView::empty());
    }
}

proof fn lemma_lay_prefix(lines: Seq<LineView>, more: Seq<LineView>, cols: int, k: int)
    requires
        0 <= k <= lines.len(),
    ensures
        lay_lines(lines + more, cols, k) == lay_lines(lines, cols, k),
    decreases k,
{
    if k > 0 {
        lemma_lay_prefix(lines, more, cols, k - 1);
        assert((lines + more)[k - 1] == lines[k - 1]);
    }
}

// ---- which line each row is of ---------------------------------------------------------------------

/// Rows unwrapped later on are told apart from those before: what is known of a row stays.
proof fn lemma_origins_stay(rows: Seq<RowView>, k: int, n: int)
    requires
        0 <= k < n <= rows.len(),
    ensures
        unwrap(rows, n).old.len() == n,
        unwrap(rows, n).old[k] == (
            unwrap(rows, k).lines.len() as int,
            unwrap(rows, k).cur.cells.len() as int,
        ),
    decreases n,
{
    if n > k + 1 {
        lemma_origins_stay(rows, k, n - 1);
    } else {
        lemma_origins_len(rows, k);
    }
}

proof fn lemma_origins_len(rows: Seq<RowView>, n: int)
    requires
        0 <= n <= rows.len(),
    ensures
        unwrap(rows, n).old.len() == n,
    decreases n,
{
    if n > 0 {
        lemma_origins_len(rows, n - 1);
    }
}

/// Unwrapping finds row `t` of line `j` to be of that line, from the column it was laid out
/// at; and the row is wrapped exactly where the line has another.
proof fn lemma_laid_origins(lines: Seq<LineView>, cols: int, j: int, t: int)
    requires
        forall|l: int| 0 <= l < lines.len() ==> rejoinable(#[trigger] lines[l], cols),
        1 <= cols <= MAX_SIDE,
        0 <= j < lines.len(),
        0 <= t < lay_line(lines[j], cols).len(),
    ensures
        ({
            let rows = rows_of(lines, cols);
            let k = lay_lines(lines, cols, j).len() + t;
            &&& 0 <= k < rows.len()
            &&& row_origins(rows).len() == rows.len()
            &&& row_origins(rows)[k] == (j, lay_line(lines[j], cols)[t].start)
            &&& rows[k].wrapped <==> t + 1 < lay_line(lines[j], cols).len()
        }),
{
    let rows = rows_of(lines, cols);
    let line = lines[j];
    let lo = lay_lines(lines, cols, j).len() as int;
    let n = lines.len() as int;
    lemma_lines_rejoin(lines, cols, j);
    lemma_lay_lines_at(lines, cols, n, j, t);
    assert(rejoinable(line, cols));
    lemma_origins_stay(rows, lo + t, rows.len() as int);
    assert(rows[lo + t] == lay_line(line, cols)[t].row);
    if line.cells.len() > 0 {
        lemma_rows_rejoin(lines, cols, j, t);
        lemma_lay_steps(line, cols, 0, t);
    }
}

/// Every row is one of the rows of a line.
proof fn lemma_row_of_a_line(lines: Seq<LineView>, cols: int, m: int, k: int) -> (p: (int, int))
    requires
        0 <= m <= lines.len(),
        0 <= k < lay_lines(lines, cols, m).len(),
    ensures
        0 <= p.0 < m,
        0 <= p.1 < lay_line(lines[p.0], cols).len(),
        k == lay_lines(lines, cols, p.0).len() + p.1,
    decreases m,
{
    let lo = lay_lines(lines, cols, m - 1).len() as int;
    if k < lo {
        lemma_row_of_a_line(lines, cols, m - 1, k)
    } else {
        (m - 1, k - lo)
    }
}

/// A row is wrapped exactly where its line goes on in the row below.
pub open spec fn wraps_true(rows: Seq<RowView>) -> bool {
    forall|k: int|
        0 <= k < rows.len() ==> ((#[trigger] rows[k]).wrapped <==> k + 1 < rows.len()
            && row_origins(rows)[k + 1].0 == row_origins(rows)[k].0)
}

proof fn lemma_wraps_true(lines: Seq<LineView>, cols: int)
    requires
        forall|l: int| 0 <= l < lines.len() ==> rejoinable(#[trigger] lines[l], cols),
        1 <= cols <= MAX_SIDE,
    ensures
        wraps_true(rows_of(lines, cols)),
{
    let rows = rows_of(lines, cols);
    let n = lines.len() as int;
    assert forall|k: int| 0 <= k < rows.len() implies ((#[trigger] rows[k]).wrapped <==> k + 1
        < rows.len() && row_origins(rows)[k + 1].0 == row_origins(rows)[k].0) by {
        let (j, t) = lemma_row_of_a_line(lines, cols, n, k);
        lemma_laid_origins(lines, cols, j, t);
        let mine = lay_line(lines[j], cols);
        assert(lay_lines(lines, cols, j + 1).len() == lay_lines(lines, cols, j).len() + mine.len());
        if t + 1 < mine.len() {
            lemma_laid_origins(lines, cols, j, t + 1);
        } else if j + 1 < n {
            assert(rejoinable(lines[j + 1], cols));
            assert(lay_line(lines[j + 1], cols).len() > 0) by {
                if lines[j + 1].cells.len() > 0 {
                    assert(lay_from(lines[j + 1], cols, 0).len() > 0);
                }
            }
            lemma_laid_origins(lines, cols, j + 1, 0);
        }
    }
}

// ---- a reflow of the whole buffer -----------------------------------------------------------------

/// The rewrap takes the whole buffer, and everything still fits: no row is pushed out of the
/// history, and none below the cursor is let go of.
pub open spec fn all_fits(b: BufferView, cols: usize, rows: usize, frozen_from: int) -> bool {
    let top = reflow_top(b, cols as int, rows as int, frozen_from);
    &&& b.stream().len() <= frozen_from
    &&& top <= b.scrollback_limit
    &&& reflow_stream(b, cols as int, frozen_from).len() <= top + rows
}

/// Where everything fits the rewrapped buffer is the lines laid out, and empty rows below.
proof fn lemma_reflow_is_laid_out(b: BufferView, cols: usize, rows: usize, frozen_from: int) -> (n:
    nat)
    requires
        b.wf(),
        1 <= cols <= MAX_SIDE,
        1 <= rows,
        rows + b.scrollback_limit <= MAX_SIDE,
        all_fits(b, cols, rows, frozen_from),
    ensures
        ({
            let lines = reflow_lines(b, frozen_from);
            let t = reflowed(b, cols, rows, frozen_from);
            &&& t.stream() == rows_of(lines + bare_lines(n), cols as int)
            &&& t.scrollback.len() == reflow_top(b, cols as int, rows as int, frozen_from)
            &&& reflow_stream(b, cols as int, frozen_from) == rows_of(lines, cols as int)
        }),
{
    let c = cols as int;
    let lines = reflow_lines(b, frozen_from);
    let t = reflowed(b, cols, rows, frozen_from);
    let stream = reflow_stream(b, c, frozen_from);
    let top = reflow_top(b, c, rows as int, frozen_from);
    lemma_reflowed_wf(b, cols, rows, frozen_from);
    let n = (rows - (stream.len() - top)) as nat;
    let all = lines + bare_lines(n);
    assert(stream =~= rows_of(lines, c)) by {
        reveal(reflow_stream);
        assert(b.stream().skip(b.stream().len() as int) =~= Seq::<RowView>::empty());
    }
    lemma_bare_rows(lines, c, n, all.len() as int);
    assert(Seq::<RowView>::empty() + stream.take(top) =~= stream.take(top));
    assert(t.scrollback =~= stream.take(top));
    assert(t.stream() =~= rows_of(all, c));
    n
}

proof fn lemma_bare_lines_rejoin(lines: Seq<LineView>, n: nat, cols: int)
    requires
        forall|l: int| 0 <= l < lines.len() ==> rejoinable(#[trigger] lines[l], cols),
    ensures
        forall|l: int|
            0 <= l < (lines + bare_lines(n)).len() ==> rejoinable(
                #[trigger] (lines + bare_lines(n))[l],
                cols,
            ),
{
    let all = lines + bare_lines(n);
    assert forall|l: int| 0 <= l < all.len() implies rejoinable(#[trigger] all[l], cols) by {
        if l < lines.len() {
            assert(all[l] == lines[l]);
        } else {
            assert(all[l] == LineView::empty());
        }
    }
}

/// The cell of a line the cursor of a buffer is on: the line, and the column in it.
pub open spec fn cursor_in_line(b: BufferView) -> (int, int) {
    let (line, base) = row_origins(b.stream())[b.scrollback.len() + b.cursor.row];
    (line, base + b.cursor.col)
}

/// The cursor is on the text of its line, not on the padding behind it.
pub open spec fn cursor_on_text(b: BufferView) -> bool {
    let (line, off) = cursor_in_line(b);
    line < logical_lines(b.stream()).len() && off < logical_lines(b.stream())[line].cells.len()
}

/// Where the cursor's line is, and that the rewrap keeps it.
proof fn lemma_cursor_line(b: BufferView, frozen_from: int)
    requires
        b.wf(),
        b.stream().len() <= frozen_from,
        cursor_on_text(b),
    ensures
        ({
            let lines = reflow_lines(b, frozen_from);
            let (line, off) = cursor_in_line(b);
            &&& 0 <= line < lines.len()
            &&& lines[line] == logical_lines(b.stream())[line]
            &&& 0 <= row_origins(b.stream())[b.scrollback.len() + b.cursor.row].1
                < MAX_LOGICAL_COLS
            &&& row_origins(b.stream()).len() == b.stream().len()
        }),
{
    let all = logical_lines(b.stream());
    let at = b.scrollback.len() + b.cursor.row;
    assert(b.stream().take(b.stream().len() as int) =~= b.stream());
    lemma_stream_wf(b);
    lemma_unwrap_wf(b.stream(), b.stream().len() as int, b.cols as int);
    assert(0 <= row_origins(b.stream())[at].0);
    lemma_kept_count(all, all.len() as int, row_origins(b.stream())[at].0);
}

/// The cursor stays on the cell of its line that it was on.
proof fn lemma_cursor_follows(b: BufferView, cols: usize, rows: usize, frozen_from: int, n: nat)
    requires
        b.wf(),
        1 <= cols <= MAX_SIDE,
        1 <= rows,
        rows + b.scrollback_limit <= MAX_SIDE,
        all_fits(b, cols, rows, frozen_from),
        forall|l: int|
            0 <= l < reflow_lines(b, frozen_from).len() ==> rejoinable(
                #[trigger] reflow_lines(b, frozen_from)[l],
                cols as int,
            ),
        reflowed(b, cols, rows, frozen_from).stream() == rows_of(
            reflow_lines(b, frozen_from) + bare_lines(n),
            cols as int,
        ),
        reflowed(b, cols, rows, frozen_from).scrollback.len() == reflow_top(
            b,
            cols as int,
            rows as int,
            frozen_from,
        ),
        reflow_stream(b, cols as int, frozen_from) == rows_of(
            reflow_lines(b, frozen_from),
            cols as int,
        ),
        cursor_on_text(b),
    ensures
        cursor_in_line(reflowed(b, cols, rows, frozen_from)) == cursor_in_line(b),
{
    let c = cols as int;
    let lines = reflow_lines(b, frozen_from);
    let all = lines + bare_lines(n);
    let t = reflowed(b, cols, rows, frozen_from);
    let (line, off) = cursor_in_line(b);
    let at = b.scrollback.len() + b.cursor.row;
    lemma_cursor_line(b, frozen_from);
    lemma_reflow_lines_wf(b, frozen_from);
    assert(rejoinable(lines[line], c));
    assert(c >= 2 || narrow_cell(lines[line].cells[off]));
    lemma_holding_holds(lines, c, line, off);
    let laid = lay_lines(lines, c, lines.len() as int);
    let lo = lay_lines(lines, c, line).len() as int;
    let hi = lay_lines(lines, c, line + 1).len() as int;
    let k = holding(laid_starts(laid), lo, hi, off);
    let map = reflow_map(b, c, frozen_from);
    assert(map.place(at as int, b.cursor.col as int) == Some((k, off - laid[k].start))) by {
        reveal(reflow_map);
        assert(b.stream().take(b.stream().len() as int) =~= b.stream());
        assert(map.new_start[k] == laid[k].start);
    }
    assert(reflow_cursor(b, c, frozen_from) == (k, off - laid[k].start));
    assert(t.scrollback.len() + t.cursor.row == k);
    assert(t.cursor.col == off - laid[k].start);
    lemma_bare_lines_rejoin(lines, n, c);
    assert(all[line] == lines[line]);
    lemma_lay_prefix(lines, bare_lines(n), c, line);
    lemma_lay_lines_at(lines, c, lines.len() as int, line, k - lo);
    lemma_laid_origins(all, c, line, k - lo);
}

/// A line, or an empty one past the last.
pub open spec fn line_at(lines: Seq<LineView>, l: int) -> LineView {
    if 0 <= l < lines.len() {
        lines[l]
    } else {
        LineView::empty()
    }
}

/// A reflow keeps the text: where it rewraps the whole buffer and everything still fits, the
/// new rows unwrap into the lines the old ones did, but for empty lines at the end. Every row
/// has the new width and is wrapped exactly where its line goes on in the row below, and a
/// cursor on a line's text stays on the same cell of it. Narrowing a screen and widening it
/// again therefore gives back what was there.
pub proof fn lemma_reflow_keeps_the_lines(
    b: BufferView,
    cols: usize,
    rows: usize,
    frozen_from: int,
)
    requires
        b.wf(),
        1 <= cols <= MAX_SIDE,
        1 <= rows,
        rows + b.scrollback_limit <= MAX_SIDE,
        forall|l: int|
            0 <= l < reflow_lines(b, frozen_from).len() ==> rejoinable(
                #[trigger] reflow_lines(b, frozen_from)[l],
                cols as int,
            ),
        all_fits(b, cols, rows, frozen_from),
    ensures
        ({
            let t = reflowed(b, cols, rows, frozen_from);
            let before = logical_lines(b.stream());
            let after = logical_lines(t.stream());
            &&& forall|l: int| same_text(#[trigger] line_at(after, l), line_at(before, l))
            &&& forall|k: int|
                0 <= k < t.stream().len() ==> (#[trigger] t.stream()[k]).cells.len() == cols
            &&& wraps_true(t.stream())
            &&& cursor_on_text(b) ==> cursor_in_line(t) == cursor_in_line(b)
        }),
{
    let c = cols as int;
    let lines = reflow_lines(b, frozen_from);
    let t = reflowed(b, cols, rows, frozen_from);
    let before = logical_lines(b.stream());
    let after = logical_lines(t.stream());
    let n = lemma_reflow_is_laid_out(b, cols, rows, frozen_from);
    let all = lines + bare_lines(n);
    lemma_bare_lines_rejoin(lines, n, c);
    lemma_rewrap_rejoins(all, c);
    lemma_wraps_true(all, c);
    lemma_reflowed_wf(b, cols, rows, frozen_from);
    lemma_stream_wf(t);
    assert forall|k: int| 0 <= k < t.stream().len() implies (#[trigger] t.stream()[k]).cells.len()
        == cols by {
        assert(t.stream()[k].wf(c));
    }
    assert(b.stream().take(b.stream().len() as int) =~= b.stream());
    let floor = row_origins(b.stream())[b.scrollback.len() + b.cursor.row].0;
    lemma_kept_count(before, before.len() as int, floor);
    assert(lines == before.take(kept_count(before, before.len() as int, floor)));
    assert forall|l: int| same_text(#[trigger] line_at(after, l), line_at(before, l)) by {
        if 0 <= l < lines.len() {
            assert(all[l] == lines[l]);
            assert(lines[l] == before[l]);
            assert(same_text(after[l], all[l]));
        } else if 0 <= l {
            if l < all.len() {
                assert(all[l] == LineView::empty());
                assert(same_text(after[l], all[l]));
            }
            if l < before.len() {
                assert(before[l].cells.len() == 0);
                assert(before[l].cells =~= Seq::<Cell>::empty());
            }
        }
    }
    if cursor_on_text(b) {
        lemma_cursor_follows(b, cols, rows, frozen_from, n);
    }
}

// ---- a buffer without wide characters -------------------------------------------------------------

/// No cell of the rows is half of a wide character.
pub open spec fn all_narrow(rows: Seq<RowView>) -> bool {
    forall|i: int, j: int|
        0 <= i < rows.len() && 0 <= j < rows[i].cells.len() ==> narrow_cell(
            #[trigger] rows[i].cells[j],
        )
}

/// A line of narrow cells that ends in something, or has nothing in it.
pub open spec fn narrow_line(line: LineView) -> bool {
    &&& forall|i: int| 0 <= i < line.cells.len() ==> narrow_cell(#[trigger] line.cells[i])
    &&& line.cells.len() > 0 ==> line.cells.last() != Cell::blank() || marks_of(
        line.marks,
        line.cells.len() - 1,
    ).len() > 0
}

proof fn lemma_trimmed_narrow(line: LineView)
    requires
        forall|i: int| 0 <= i < line.cells.len() ==> narrow_cell(#[trigger] line.cells[i]),
    ensures
        narrow_line(line.trimmed()),
{
    let end = content_len(line, line.cells.len() as int);
    lemma_content_len(line, line.cells.len() as int);
    lemma_marks_of_dropped(line.marks, end, usize::MAX as int, end - 1);
}

proof fn lemma_unwrapped_narrow(rows: Seq<RowView>, cols: int, k: int)
    requires
        rows_wf(rows, cols),
        1 <= cols,
        all_narrow(rows),
        0 <= k <= rows.len(),
    ensures
        forall|l: int|
            0 <= l < unwrap(rows, k).lines.len() ==> narrow_line(#[trigger] unwrap(rows, k).lines[l]),
        forall|i: int|
            0 <= i < unwrap(rows, k).cur.cells.len() ==> narrow_cell(
                #[trigger] unwrap(rows, k).cur.cells[i],
            ),
    decreases k,
{
    if k > 0 {
        lemma_unwrapped_narrow(rows, cols, k - 1);
        let u = unwrap(rows, k - 1);
        assert(rows[k - 1].wf(cols));
        let line = u.cur.joined(rows[k - 1], wrap_padding(rows, k - 1));
        assert forall|i: int| 0 <= i < line.cells.len() implies narrow_cell(
            #[trigger] line.cells[i],
        ) by {
            if i < u.cur.cells.len() {
                assert(line.cells[i] == u.cur.cells[i]);
            } else {
                assert(line.cells[i] == rows[k - 1].cells[i - u.cur.cells.len()]);
            }
        }
        lemma_trimmed_narrow(line);
    }
}

/// A buffer without wide characters whose lines are short of the cap keeps its text whatever
/// the width: the lines, where they are wrapped, and where in them the cursor is.
pub proof fn lemma_narrow_text_reflows(b: BufferView, cols: usize, rows: usize, frozen_from: int)
    requires
        b.wf(),
        cols <= MAX_SIDE,
        rows + b.scrollback_limit < MAX_SIDE,
        all_narrow(b.stream()),
        forall|l: int|
            0 <= l < logical_lines(b.stream()).len() ==> (#[trigger] logical_lines(
                b.stream(),
            )[l]).cells.len() < MAX_LOGICAL_COLS,
        all_fits(b, side(cols), side(rows), frozen_from),
    ensures
        ({
            let t = reflowed(b, side(cols), side(rows), frozen_from);
            let before = logical_lines(b.stream());
            let after = logical_lines(t.stream());
            &&& forall|l: int| same_text(#[trigger] line_at(after, l), line_at(before, l))
            &&& forall|k: int|
                0 <= k < t.stream().len() ==> (#[trigger] t.stream()[k]).cells.len() == side(cols)
            &&& wraps_true(t.stream())
            &&& cursor_on_text(b) ==> cursor_in_line(t) == cursor_in_line(b)
        }),
{
    let c = side(cols) as int;
    let before = logical_lines(b.stream());
    let lines = reflow_lines(b, frozen_from);
    let n = b.stream().len() as int;
    assert(b.stream().take(n) =~= b.stream());
    lemma_stream_wf(b);
    lemma_unwrapped_narrow(b.stream(), b.cols as int, n);
    lemma_trimmed_narrow(unwrap(b.stream(), n).cur);
    lemma_reflow_lines_wf(b, frozen_from);
    let floor = row_origins(b.stream())[b.scrollback.len() + b.cursor.row].0;
    lemma_kept_count(before, before.len() as int, floor);
    assert forall|l: int| 0 <= l < lines.len() implies rejoinable(#[trigger] lines[l], c) by {
        assert(lines[l] == before[l]);
        assert(narrow_line(lines[l]));
        assert(lines[l].wf());
        let line = lines[l];
        assert forall|t: int| 0 <= t < lay_line(line, c).len() implies seam_kept(
            line,
            c,
            (#[trigger] lay_line(line, c)[t]).start,
        ) by {
            if line.cells.len() > 0 {
                lemma_lay_steps(line, c, 0, t);
                lemma_chunk(line.cells, c, lay_line(line, c)[t].start);
            }
        }
    }
    lemma_reflow_keeps_the_lines(b, side(cols), side(rows), frozen_from);
}

} // verus!
