//! A reflow moves text, it does not change it: every cell with something in it is found
//! again where the remap says it went.
use vstd::prelude::*;
use crate::buffer::{count_on, keep_last, least, rows_wf, BufferView, MAX_SIDE};
use crate::cell::{narrow_cell, Cell};
use crate::ids::AbsRow;
use crate::reflow::{
    chunk_clips, chunk_end, chunk_next, chunk_row, content_len, frozen_at, holding, kept_count,
    laid_starts, lay_from, lay_line, lay_lines, lemma_chunk, lemma_content_len, lemma_holding,
    lemma_lay_lines_wf, lemma_reflow_lines_wf, lemma_reflowed_wf, lemma_stream_wf, lemma_unwrap_wf,
    lines_wf, logical_lines, reflow_laid, reflow_lines, reflow_map, reflow_remap, reflow_stream,
    reflow_top, reflowed, row_origins, unwrap, wrap_padding, Laid, LineView, Unwrapped,
    MAX_LOGICAL_COLS,
};
use crate::row::{pair_at, paired, RowView};

verus! {

// ---- laying a line out -----------------------------------------------------------------------

/// The rows a line is laid out in start later and later, the first one at column `i`.
proof fn lemma_starts(line: LineView, cols: int, i: int, j: int, k: int)
    requires
        line.wf(),
        1 <= cols,
        0 <= i < line.cells.len(),
        0 <= j < k < lay_from(line, cols, i).len(),
    ensures
        i <= lay_from(line, cols, i)[j].start < lay_from(line, cols, i)[k].start,
    decreases line.cells.len() - i,
{
    let next = chunk_next(line.cells, cols, i);
    let rest = lay_from(line, cols, next);
    let all = lay_from(line, cols, i);
    lemma_chunk(line.cells, cols, i);
    assert(all[k] == rest[k - 1]);
    if j > 0 {
        assert(all[j] == rest[j - 1]);
        lemma_starts(line, cols, next, j - 1, k - 1);
    } else if k > 1 {
        lemma_starts(line, cols, next, 0, k - 1);
    }
}

/// The row of a line that holds its column `off`, which is found there.
proof fn lemma_laid_out(line: LineView, cols: int, i: int, off: int) -> (k: int)
    requires
        line.wf(),
        1 <= cols,
        0 <= i <= off < line.cells.len(),
        cols >= 2 || narrow_cell(line.cells[off]),
    ensures
        0 <= k < lay_from(line, cols, i).len(),
        lay_from(line, cols, i)[k].start <= off < lay_from(line, cols, i)[k].start + cols,
        k + 1 < lay_from(line, cols, i).len() ==> off < lay_from(line, cols, i)[k + 1].start,
        lay_from(line, cols, i)[k].row.cells[off - lay_from(line, cols, i)[k].start]
            == line.cells[off],
    decreases line.cells.len() - i,
{
    let cells = line.cells;
    let next = chunk_next(cells, cols, i);
    let all = lay_from(line, cols, i);
    lemma_chunk(cells, cols, i);
    assert(all[0] == Laid { start: i, row: chunk_row(line, cols, i) });
    if off < next {
        if chunk_clips(cells, cols, i) {
            assert(pair_at(cells, i));
            assert(false);
        }
        assert(cells.subrange(i, chunk_end(cells, cols, i))[off - i] == cells[off]);
        if all.len() > 1 {
            assert(all[1] == lay_from(line, cols, next)[0]);
        }
        0
    } else {
        let k = lemma_laid_out(line, cols, next, off);
        let rest = lay_from(line, cols, next);
        assert(all[k + 1] == rest[k]);
        if k + 1 < rest.len() {
            assert(all[k + 2] == rest[k + 1]);
        }
        k + 1
    }
}

/// Among the rows of all lines, those of line `j` stand together.
pub proof fn lemma_lay_lines_at(lines: Seq<LineView>, cols: int, m: int, j: int, t: int)
    requires
        0 <= j < m <= lines.len(),
        0 <= t < lay_line(lines[j], cols).len(),
    ensures
        lay_lines(lines, cols, j).len() + t < lay_lines(lines, cols, m).len(),
        lay_lines(lines, cols, m)[lay_lines(lines, cols, j).len() + t] == lay_line(
            lines[j],
            cols,
        )[t],
    decreases m,
{
    if j < m - 1 {
        lemma_lay_lines_at(lines, cols, m - 1, j, t);
    }
}

/// The columns of a line are found in the row that `holding` picks, at their distance from
/// the column it starts at.
pub proof fn lemma_holding_holds(lines: Seq<LineView>, cols: int, j: int, off: int)
    requires
        lines_wf(lines),
        1 <= cols <= MAX_SIDE,
        0 <= j < lines.len(),
        0 <= off < lines[j].cells.len(),
        cols >= 2 || narrow_cell(lines[j].cells[off]),
    ensures
        ({
            let laid = lay_lines(lines, cols, lines.len() as int);
            let k = holding(
                laid_starts(laid),
                lay_lines(lines, cols, j).len() as int,
                lay_lines(lines, cols, j + 1).len() as int,
                off,
            );
            &&& 0 <= k < laid.len()
            &&& lay_lines(lines, cols, j).len() <= k < lay_lines(lines, cols, j + 1).len()
            &&& laid[k].start <= off < laid[k].start + cols
            &&& laid[k].row.cells[off - laid[k].start] == lines[j].cells[off]
        }),
{
    let laid = lay_lines(lines, cols, lines.len() as int);
    let starts = laid_starts(laid);
    let lo = lay_lines(lines, cols, j).len() as int;
    let hi = lay_lines(lines, cols, j + 1).len() as int;
    let line = lines[j];
    assert(line.wf());
    lemma_lay_lines_wf(lines, cols, j + 1);
    lemma_holding(starts, lo, hi, off);
    let h = holding(starts, lo, hi, off);
    let mine = lay_line(line, cols);
    assert(hi - lo == mine.len());
    let k = lemma_laid_out(line, cols, 0, off);
    lemma_lay_lines_at(lines, cols, lines.len() as int, j, k);
    lemma_lay_lines_at(lines, cols, lines.len() as int, j, h - lo);
    assert(starts[lo + k] == mine[k].start);
    assert(starts[h] == mine[h - lo].start);
    lemma_lay_lines_at(lines, cols, lines.len() as int, j, 0);
    if h - lo > k {
        if k + 1 < h - lo {
            lemma_starts(line, cols, 0, k + 1, h - lo);
        }
    } else if h - lo < k {
        assert(starts[lo + k] > off);
    }
}

// ---- unwrapping rows --------------------------------------------------------------------------

/// The cells of line `l` as far as the unwrapping has come.
pub open spec fn line_so_far(u: Unwrapped, l: int) -> Seq<Cell> {
    if l < u.lines.len() {
        u.lines[l].cells
    } else {
        u.cur.cells
    }
}

/// Trimming stops at the last cell with something in it.
proof fn lemma_trim_keeps(line: LineView, end: int, i: int)
    requires
        0 <= i < end <= line.cells.len(),
        line.cells[i] != Cell::blank(),
    ensures
        i < content_len(line, end) <= end,
    decreases end,
{
    if end > i + 1 && line.cells[end - 1] == Cell::blank() {
        lemma_trim_keeps(line, end - 1, i);
    }
    lemma_content_len(line, end);
}

/// A cell with something in it is in the line its row joined, at its column counted from
/// where the row begins.
proof fn lemma_unwrapped(rows: Seq<RowView>, k: int, cols: int, r: int, c: int)
    requires
        rows_wf(rows, cols),
        1 <= cols <= MAX_SIDE,
        0 <= r < k <= rows.len(),
        0 <= c < cols,
        rows[r].cells[c] != Cell::blank(),
    ensures
        ({
            let u = unwrap(rows, k);
            let (l, base) = u.old[r];
            &&& 0 <= base
            &&& 0 <= l <= u.lines.len()
            &&& base + c < line_so_far(u, l).len()
            &&& line_so_far(u, l)[base + c] == rows[r].cells[c]
        }),
    decreases k,
{
    lemma_unwrap_wf(rows, k - 1, cols);
    let before = unwrap(rows, k - 1);
    let u = unwrap(rows, k);
    let row = rows[k - 1];
    let pad = wrap_padding(rows, k - 1);
    let line = before.cur.joined(row, pad);
    assert(row.wf(cols));
    assert(rows[r].wf(cols));
    if r < k - 1 {
        lemma_unwrapped(rows, k - 1, cols, r, c);
        assert(u.old[r] == before.old[r]);
    } else {
        assert(u.old[r] == (before.lines.len() as int, before.cur.cells.len() as int));
    }
    let (l, base) = u.old[r];
    if l == before.lines.len() {
        assert(base + c < line.cells.len() && line.cells[base + c] == rows[r].cells[c]);
        if !row.wrapped || line.cells.len() >= MAX_LOGICAL_COLS {
            lemma_trim_keeps(line, line.cells.len() as int, base + c);
            assert(u.lines[l] == line.trimmed());
        }
    } else {
        assert(u.lines[l] == before.lines[l]);
    }
}

proof fn lemma_kept_lines(lines: Seq<LineView>, keep: int, floor: int, l: int)
    requires
        0 <= l < keep <= lines.len(),
        lines[l].cells.len() > 0,
    ensures
        l < kept_count(lines, keep, floor) <= keep,
    decreases keep,
{
    if keep > floor + 1 && keep > 0 && lines[keep - 1].cells.len() == 0 {
        lemma_kept_lines(lines, keep - 1, floor, l);
    }
}

/// A cell of the part that reflows is in the line its row joined, and that line is laid out.
proof fn lemma_in_its_line(b: BufferView, frozen_from: int, r: int, c: int)
    requires
        b.wf(),
        0 <= r < frozen_at(b, frozen_from),
        0 <= c < b.cols,
        b.stream()[r].cells[c] != Cell::blank(),
    ensures
        ({
            let lines = reflow_lines(b, frozen_from);
            let (l, base) = row_origins(b.stream().take(frozen_at(b, frozen_from)))[r];
            &&& 0 <= l < lines.len()
            &&& 0 <= base < MAX_LOGICAL_COLS
            &&& base + c < lines[l].cells.len()
            &&& lines[l].cells[base + c] == b.stream()[r].cells[c]
        }),
{
    let f = frozen_at(b, frozen_from);
    let head = b.stream().take(f);
    lemma_stream_wf(b);
    assert forall|i: int| 0 <= i < head.len() implies (#[trigger] head[i]).wf(b.cols as int) by {
        assert(head[i] == b.stream()[i]);
    }
    lemma_unwrapped(head, f, b.cols as int, r, c);
    lemma_unwrap_wf(head, f, b.cols as int);
    let u = unwrap(head, f);
    assert(0 <= u.old[r].1 < MAX_LOGICAL_COLS);
    let (l, base) = u.old[r];
    let all = logical_lines(head);
    lemma_pending(head, f);
    if l == u.lines.len() {
        lemma_trim_keeps(u.cur, u.cur.cells.len() as int, base + c);
        assert(all[l] == u.cur.trimmed());
    } else {
        assert(all[l] == u.lines[l]);
    }
    if f == b.stream().len() {
        lemma_kept_lines(
            all,
            all.len() as int,
            row_origins(head)[b.scrollback.len() + b.cursor.row].0,
            l,
        );
    }
}

/// An open line with cells in it is closed at the end.
proof fn lemma_pending(rows: Seq<RowView>, k: int)
    requires
        0 <= k <= rows.len(),
    ensures
        unwrap(rows, k).cur.cells.len() > 0 ==> unwrap(rows, k).pending,
    decreases k,
{
    if k > 0 {
        lemma_pending(rows, k - 1);
    }
}

// ---- the remap --------------------------------------------------------------------------------

/// A cell with something in it is in the new stream where the remap places it. The one that
/// cannot be is a wide character in a single column, which is clipped; and of the frozen rows
/// only what lies within the new width is still there.
pub proof fn lemma_placed(b: BufferView, cols: int, frozen_from: int, r: int, c: int)
    requires
        b.wf(),
        0 <= frozen_from,
        1 <= cols <= MAX_SIDE,
        0 <= r < b.stream().len(),
        0 <= c < b.cols,
        b.stream()[r].cells[c] != Cell::blank(),
        cols >= 2 || narrow_cell(b.stream()[r].cells[c]),
        r >= frozen_from ==> c + 1 < cols || c < cols && !b.stream()[r].cells[c].leader(),
        reflow_stream(b, cols, frozen_from).len() <= usize::MAX,
    ensures
        ({
            let stream = reflow_stream(b, cols, frozen_from);
            reflow_map(b, cols, frozen_from).place(r, c) matches Some((k, d)) && 0 <= k
                < stream.len() && 0 <= d < cols && stream[k].cells[d] == b.stream()[r].cells[c]
        }),
{
    reveal(reflow_map);
    reveal(reflow_stream);
    let f = frozen_at(b, frozen_from);
    let lines = reflow_lines(b, frozen_from);
    let laid = reflow_laid(b, cols, frozen_from);
    let stream = reflow_stream(b, cols, frozen_from);
    let map = reflow_map(b, cols, frozen_from);
    lemma_stream_wf(b);
    assert(b.stream()[r].wf(b.cols as int));
    lemma_reflow_lines_wf(b, frozen_from);
    if r >= f {
        let k = laid.len() + (r - f);
        assert(b.stream().skip(f)[r - f] == b.stream()[r]);
        assert(stream[k] == b.stream()[r].resized(cols));
    } else {
        lemma_in_its_line(b, frozen_from, r, c);
        let (l, base) = map.old[r];
        lemma_holding_holds(lines, cols, l, base + c);
        let lo = lay_lines(lines, cols, l).len() as int;
        let hi = lay_lines(lines, cols, l + 1).len() as int;
        let k = holding(laid_starts(laid), lo, hi, base + c);
        assert(stream[k] == laid[k].row);
        assert(map.new_start[k] == laid[k].start);
    }
}

/// Whatever is anchored to a cell follows it. A cell with something in it is, after the
/// reflow, at the id and column the remap gives; and the remap gives none exactly where the
/// line was pushed out of history. (A line that no longer fits below the cursor is let go
/// of, and its id is past the end.)
pub proof fn lemma_reflow_follows_cells(
    b: BufferView,
    cols: usize,
    rows: usize,
    frozen_from: int,
    abs: AbsRow,
    col: int,
)
    requires
        b.wf(),
        0 <= frozen_from,
        1 <= cols <= MAX_SIDE,
        1 <= rows,
        rows + b.scrollback_limit <= MAX_SIDE,
        reflow_stream(b, cols as int, frozen_from).len() <= usize::MAX,
        b.evicted + b.stream().len() + reflow_stream(b, cols as int, frozen_from).len() <= u64::MAX,
        b.row_of(abs) matches Some(r) && 0 <= col < b.cols && r.cells[col] != Cell::blank() && (
        cols >= 2 || narrow_cell(r.cells[col])) && (abs.0 - b.evicted >= frozen_from ==> col + 1
            < cols || col < cols && !r.cells[col].leader()),
    ensures
        ({
            let t = reflowed(b, cols, rows, frozen_from);
            let map = reflow_remap(b, cols, rows, frozen_from);
            let top = reflow_top(b, cols as int, rows as int, frozen_from);
            &&& map.place(abs.0 - b.evicted, col) matches Some((k, d))
            &&& map.moved(abs, col) is None <==> b.evicted + k < t.evicted
            &&& map.moved(abs, col) matches Some((to, e)) ==> to.0 == b.evicted + k && e == d && (
            t.row_of(to) is Some <==> k < top + rows) && (t.row_of(to) matches Some(r)
                ==> r.cells[d] == b.row_of(abs)->0.cells[col])
        }),
{
    let r = abs.0 - b.evicted;
    lemma_placed(b, cols as int, frozen_from, r, col);
    lemma_reflowed_wf(b, cols, rows, frozen_from);
    let inner = reflow_map(b, cols as int, frozen_from);
    let map = reflow_remap(b, cols, rows, frozen_from);
    assert(inner.evicted == b.evicted) by {
        reveal(reflow_map);
    }
    assert(map.place(r, col) == inner.place(r, col));
    let (k, d) = inner.place(r, col)->0;
    let stream = reflow_stream(b, cols as int, frozen_from);
    let top = reflow_top(b, cols as int, rows as int, frozen_from);
    let end = least(top + rows, stream.len() as int);
    let t = reflowed(b, cols, rows, frozen_from);
    let to = AbsRow(count_on(b.evicted, k));
    let gone = t.evicted - b.evicted;
    let head = Seq::<RowView>::empty() + stream.take(top);
    assert(t.scrollback == keep_last(head, b.scrollback_limit as int));
    assert(t.scrollback.len() + gone == top);
    if k >= gone && k < top + rows {
        assert(t.row_of(to) is Some);
        if k < top {
            assert(t.stream()[k - gone] == t.scrollback[k - gone]);
            assert(t.scrollback[k - gone] == head[k]);
        } else {
            assert(t.stream()[k - gone] == t.lines[k - top]);
            assert(k < end);
            assert(t.lines[k - top] == stream.subrange(top, end)[k - top]);
        }
    }
}

} // verus!
