//! Resizing a buffer without rewrapping it.
use vstd::prelude::*;
use crate::buffer::{
    keep_last, least, row_mut, rows_view, rows_wf, Buffer, BufferView, MAX_SIDE,
};
use crate::cell::{lemma_plain_cell, Cell, Cursor};
use crate::row::{lemma_filled_wf, lemma_resized_wf, Row, RowView};

verus! {

/// Retiring rows and then one more is retiring them all.
pub proof fn lemma_retired_push(b: BufferView, rows: Seq<RowView>, row: RowView)
    requires
        b.scrollback.len() <= b.scrollback_limit,
    ensures
        b.retired(rows).retired(seq![row]) == b.retired(rows.push(row)),
{
    let all = b.scrollback + rows;
    let limit = b.scrollback_limit as int;
    assert(b.scrollback + rows.push(row) =~= all.push(row));
    let once = keep_last(all, limit);
    assert(once + seq![row] =~= once.push(row));
    assert(keep_last(once.push(row), limit) =~= keep_last(all.push(row), limit));
    assert(b.retired(rows).retired(seq![row]) =~= b.retired(rows.push(row)));
}

/// Retiring nothing changes nothing.
pub proof fn lemma_retired_none(b: BufferView)
    requires
        b.scrollback.len() <= b.scrollback_limit,
    ensures
        b.retired(Seq::empty()) == b,
{
    assert(b.scrollback + Seq::<RowView>::empty() =~= b.scrollback);
    assert(b.retired(Seq::empty()) =~= b);
}

/// Retiring whole rows leaves whole rows, no more than the ring holds.
pub proof fn lemma_retired_wf(b: BufferView, rows: Seq<RowView>)
    requires
        rows_wf(b.scrollback, b.cols as int),
        rows_wf(rows, b.cols as int),
    ensures
        rows_wf(b.retired(rows).scrollback, b.cols as int),
        b.retired(rows).scrollback.len() <= b.scrollback_limit,
{
    let all = b.scrollback + rows;
    let o = b.retired(rows).scrollback;
    assert forall|i: int| 0 <= i < o.len() implies (#[trigger] o[i]).wf(b.cols as int) by {
        let j = if all.len() > b.scrollback_limit {
            i + all.len() - b.scrollback_limit
        } else {
            i
        };
        assert(o[i] == all[j]);
        if j < b.scrollback.len() {
            assert(all[j] == b.scrollback[j]);
        } else {
            assert(all[j] == rows[j - b.scrollback.len()]);
        }
    }
}

/// A resize keeps a buffer well formed and gives it the size asked for.
pub proof fn lemma_resized_buffer_wf(b: BufferView, cols: usize, rows: usize)
    requires
        b.wf(),
        cols <= MAX_SIDE,
        rows + b.scrollback_limit < MAX_SIDE,
    ensures
        b.resized(cols, rows).wf(),
        b.resized(cols, rows).cols == (if cols < 1 {
            1
        } else {
            cols
        }),
        b.resized(cols, rows).rows == (if rows < 1 {
            1
        } else {
            rows
        }),
{
    let c = if cols < 1 {
        1usize
    } else {
        cols
    };
    let r = if rows < 1 {
        1usize
    } else {
        rows
    };
    lemma_recolumned_wf(b, c);
    let w = b.recolumned(c);
    if r >= w.rows {
        lemma_grown_rows(w, r);
    } else {
        lemma_shrunk_rows(w, r);
    }
}

proof fn lemma_grown_rows(w: BufferView, rows: usize)
    requires
        w.wf(),
        rows >= w.rows,
        rows + w.scrollback_limit <= MAX_SIDE,
    ensures
        rows_wf(w.rerowed(rows).lines, w.cols as int),
        rows_wf(w.rerowed(rows).scrollback, w.cols as int),
        w.rerowed(rows).lines.len() == rows,
        w.rerowed(rows).scrollback.len() <= w.scrollback_limit,
        w.rerowed(rows).cursor.row < rows,
{
    lemma_plain_cell(Cell::blank());
    lemma_filled_wf(w.cols as int, Cell::blank());
    let o = w.rerowed(rows);
    let pull = least(rows - w.rows, w.scrollback.len() as int);
    let keep = w.scrollback.len() - pull;
    assert forall|i: int| 0 <= i < o.lines.len() implies (#[trigger] o.lines[i]).wf(
        w.cols as int,
    ) by {
        if i < pull {
            assert(o.lines[i] == w.scrollback[keep + i]);
        } else if i < pull + w.rows {
            assert(o.lines[i] == w.lines[i - pull]);
        }
    }
    assert forall|i: int| 0 <= i < o.scrollback.len() implies (#[trigger] o.scrollback[i]).wf(
        w.cols as int,
    ) by {
        assert(o.scrollback[i] == w.scrollback[i]);
    }
}

proof fn lemma_shrunk_rows(w: BufferView, rows: usize)
    requires
        w.wf(),
        1 <= rows < w.rows,
    ensures
        rows_wf(w.rerowed(rows).lines, w.cols as int),
        rows_wf(w.rerowed(rows).scrollback, w.cols as int),
        w.rerowed(rows).lines.len() == rows,
        w.rerowed(rows).scrollback.len() <= w.scrollback_limit,
        w.rerowed(rows).cursor.row < rows,
{
    let o = w.rerowed(rows);
    let excess = w.rows - rows;
    let below = w.rows - (w.cursor.row + 1);
    let drop = least(excess, below);
    let push = excess - drop;
    assert forall|i: int| 0 <= i < o.lines.len() implies (#[trigger] o.lines[i]).wf(
        w.cols as int,
    ) by {
        assert(o.lines[i] == w.lines[push + i]);
    }
    let gone = w.lines.take(push);
    assert forall|i: int| 0 <= i < gone.len() implies (#[trigger] gone[i]).wf(w.cols as int) by {
        assert(gone[i] == w.lines[i]);
    }
    lemma_retired_wf(w, gone);
}

proof fn lemma_view_insert_front(rows: Seq<Row>, row: Row)
    ensures
        rows_view(rows.insert(0, row)) == seq![row@] + rows_view(rows),
{
    let out = rows.insert(0, row);
    assert forall|j: int| 0 <= j < out.len() implies rows_view(out)[j] == (seq![row@] + rows_view(
        rows,
    ))[j] by {
        if j > 0 {
            assert(out[j] == rows[j - 1]);
        }
    }
    assert(rows_view(out) =~= seq![row@] + rows_view(rows));
}

proof fn lemma_view_remove_front(rows: Seq<Row>)
    requires
        rows.len() > 0,
    ensures
        rows_view(rows.remove(0)) == rows_view(rows).skip(1),
{
    let out = rows.remove(0);
    assert forall|j: int| 0 <= j < out.len() implies rows_view(out)[j] == rows_view(rows).skip(
        1,
    )[j] by {
        assert(out[j] == rows[j + 1]);
    }
    assert(rows_view(out) =~= rows_view(rows).skip(1));
}

proof fn lemma_recolumned_wf(b: BufferView, cols: usize)
    requires
        b.wf(),
        1 <= cols <= MAX_SIDE,
    ensures
        b.recolumned(cols).wf(),
{
    if cols != b.cols {
        let o = b.recolumned(cols);
        assert forall|i: int| 0 <= i < o.lines.len() implies (#[trigger] o.lines[i]).wf(
            cols as int,
        ) by {
            assert(b.lines[i].wf(b.cols as int));
            lemma_resized_wf(b.lines[i], b.cols as int, cols as int);
        }
        assert forall|i: int| 0 <= i < o.scrollback.len() implies (#[trigger] o.scrollback[i]).wf(
            cols as int,
        ) by {
            assert(b.scrollback[i].wf(b.cols as int));
            lemma_resized_wf(b.scrollback[i], b.cols as int, cols as int);
        }
    }
}

impl Buffer {
    fn recolumn(&mut self, cols: usize)
        requires
            old(self)@.wf(),
            1 <= cols <= MAX_SIDE,
        ensures
            final(self)@ == old(self)@.recolumned(cols),
    {
        if cols == self.cols {
            return;
        }
        let ghost before = self@;
        let mut i: usize = 0;
        while i < self.lines.len()
            invariant
                i <= self.lines@.len(),
                1 <= cols,
                before.wf(),
                self@ == (BufferView { lines: rows_view(self.lines@), ..before }),
                self.lines@.len() == before.lines.len(),
                forall|j: int|
                    0 <= j < before.lines.len() ==> (#[trigger] self.lines@[j])@ == (if j < i {
                        before.lines[j].resized(cols as int)
                    } else {
                        before.lines[j]
                    }),
            decreases self.lines.len() - i,
        {
            assert(before.lines[i as int].wf(before.cols as int));
            row_mut(&mut self.lines, i).resize_cols(cols);
            i = i + 1;
        }
        let ghost lines = before.lines.map_values(|r: RowView| r.resized(cols as int));
        assert(rows_view(self.lines@) =~= lines);
        let mut k: usize = 0;
        while k < self.scrollback.len()
            invariant
                k <= self.scrollback@.len(),
                1 <= cols,
                before.wf(),
                rows_view(self.lines@) == lines,
                self@ == (BufferView {
                    lines,
                    scrollback: rows_view(self.scrollback@),
                    ..before
                }),
                self.scrollback@.len() == before.scrollback.len(),
                forall|j: int|
                    0 <= j < before.scrollback.len() ==> (#[trigger] self.scrollback@[j])@ == (if j
                        < k {
                        before.scrollback[j].resized(cols as int)
                    } else {
                        before.scrollback[j]
                    }),
            decreases self.scrollback.len() - k,
        {
            assert(before.scrollback[k as int].wf(before.cols as int));
            row_mut(&mut self.scrollback, k).resize_cols(cols);
            k = k + 1;
        }
        assert(rows_view(self.scrollback@) =~= before.scrollback.map_values(
            |r: RowView| r.resized(cols as int),
        ));
        self.cols = cols;
        self.grow_tabs(cols);
        if self.cursor.col >= cols {
            self.cursor.col = cols - 1;
        }
        assert(self@ =~= before.recolumned(cols));
    }

    fn rerow(&mut self, rows: usize)
        requires
            old(self)@.wf(),
            1 <= rows,
            rows + old(self)@.scrollback_limit <= MAX_SIDE,
        ensures
            final(self)@ == old(self)@.rerowed(rows),
    {
        let ghost before = self@;
        if rows >= self.rows {
            let mut grow: usize = rows - self.rows;
            let ghost full = before.scrollback.len() as int;
            let ghost pull = least(rows - before.rows, full);
            assert(before.scrollback.take(full) =~= before.scrollback);
            assert(before.scrollback.skip(full) + before.lines =~= before.lines);
            while grow > 0 && self.scrollback.len() > 0
                invariant
                    before.wf(),
                    full == before.scrollback.len(),
                    self.scrollback@.len() <= full,
                    grow == (rows - before.rows) - (full - self.scrollback@.len()),
                    rows <= MAX_SIDE,
                    rows_view(self.scrollback@) == before.scrollback.take(
                        self.scrollback@.len() as int,
                    ),
                    rows_view(self.lines@) == before.scrollback.skip(self.scrollback@.len() as int)
                        + before.lines,
                    self.cursor.row == before.cursor.row + (full - self.scrollback@.len()),
                    self@ == (BufferView {
                        lines: rows_view(self.lines@),
                        scrollback: rows_view(self.scrollback@),
                        cursor: Cursor { row: self.cursor.row, ..before.cursor },
                        ..before
                    }),
                decreases grow,
            {
                let ghost ring = self.scrollback@;
                let ghost lines0 = self.lines@;
                match self.scrollback.pop_back() {
                    Some(row) => {
                        let ghost m = ring.len() - 1;
                        assert(row@ == before.scrollback[m]) by {
                            assert(rows_view(ring)[m] == row@);
                        }
                        proof {
                            lemma_view_insert_front(lines0, row);
                            assert(seq![before.scrollback[m]] + (before.scrollback.skip(m + 1)
                                + before.lines) =~= before.scrollback.skip(m) + before.lines);
                        }
                        self.lines.push_front(row);
                        assert(rows_view(self.scrollback@) =~= before.scrollback.take(m));
                    },
                    None => {},
                }
                self.cursor.row = self.cursor.row + 1;
                grow = grow - 1;
            }
            let ghost keep = self.scrollback@.len() as int;
            assert(keep == full - pull);
            let ghost top = rows_view(self.lines@);
            let mut k: usize = 0;
            assert(top =~= top + Seq::new(
                0,
                |i: int| RowView::filled(before.cols as int, Cell::blank()),
            ));
            while k < grow
                invariant
                    k <= grow,
                    rows_view(self.lines@) == top + Seq::new(
                        k as nat,
                        |i: int| RowView::filled(before.cols as int, Cell::blank()),
                    ),
                    self@ == (BufferView {
                        lines: rows_view(self.lines@),
                        scrollback: before.scrollback.take(keep),
                        cursor: Cursor {
                            row: (before.cursor.row + pull) as usize,
                            ..before.cursor
                        },
                        ..before
                    }),
                decreases grow - k,
            {
                let ghost lines0 = self.lines@;
                self.lines.push_back(Row::filled(self.cols, Cell::blank()));
                k = k + 1;
                assert(rows_view(self.lines@) =~= top + Seq::new(
                    k as nat,
                    |i: int| RowView::filled(before.cols as int, Cell::blank()),
                )) by {
                    assert(rows_view(self.lines@) =~= rows_view(lines0).push(
                        RowView::filled(before.cols as int, Cell::blank()),
                    ));
                }
            }
            assert(self@ =~= before.rerowed(rows));
        } else {
            let excess: usize = self.rows - rows;
            let below: usize = self.rows - (self.cursor.row + 1);
            let drop: usize = if excess < below {
                excess
            } else {
                below
            };
            let push: usize = excess - drop;
            self.lines.truncate(self.rows - drop);
            let ghost base = BufferView {
                lines: before.lines.take(before.rows - drop),
                ..before
            };
            assert(rows_view(self.lines@) =~= base.lines);
            let ghost limit = before.scrollback_limit;
            let mut k: usize = 0;
            proof {
                lemma_retired_none(before);
                assert(before.lines.take(0) =~= Seq::empty());
                assert(base.lines.skip(0) =~= base.lines);
            }
            while k < push
                invariant
                    k <= push,
                    1 <= rows,
                    before.wf(),
                    push + drop == before.rows - rows,
                    push <= before.cursor.row,
                    drop <= before.rows,
                    limit == before.scrollback_limit,
                    base == (BufferView {
                        lines: before.lines.take(before.rows - drop),
                        ..before
                    }),
                    rows_view(self.lines@) == base.lines.skip(k as int),
                    self@.scrollback.len() <= limit,
                    self@ == (BufferView {
                        lines: rows_view(self.lines@),
                        cursor: Cursor {
                            row: (before.cursor.row - k) as usize,
                            ..before.cursor
                        },
                        ..(if limit == 0 {
                            before
                        } else {
                            before.retired(before.lines.take(k as int))
                        })
                    }),
                decreases push - k,
            {
                let ghost lines0 = self.lines@;
                assert(rows_view(lines0).len() == before.rows - drop - k);
                let row = match self.lines.pop_front() {
                    Some(row) => row,
                    None => Row::filled(self.cols, Cell::blank()),
                };
                let ghost gone = row@;
                proof {
                    lemma_view_remove_front(lines0);
                    assert(rows_view(lines0)[0] == gone);
                    assert(gone == before.lines[k as int]);
                    assert(base.lines.skip(k as int).skip(1) =~= base.lines.skip(k + 1));
                }
                self.push_history(row);
                self.cursor.row = self.cursor.row - 1;
                proof {
                    assert(before.lines.take(k + 1) =~= before.lines.take(k as int).push(gone));
                    lemma_retired_push(before, before.lines.take(k as int), gone);
                    assert forall|i: int| 0 <= i < before.lines.take(k + 1).len() implies (
                    #[trigger] before.lines.take(k + 1)[i]).wf(before.cols as int) by {
                        assert(before.lines[i].wf(before.cols as int));
                    }
                    lemma_retired_wf(before, before.lines.take(k + 1));
                }
                k = k + 1;
            }
            assert(base.lines.skip(push as int) =~= before.lines.subrange(
                push as int,
                before.rows - drop,
            ));
            assert(self@ =~= before.rerowed(rows));
        }
    }

    /// Resize to `new_cols` by `new_rows` without rewrapping. Columns truncate or pad every
    /// row; rows grow by pulling recent history back down onto the screen, and shrink by
    /// dropping rows below the cursor first, then retiring the top, so that the cursor stays
    /// on screen. The scroll region resets and the wrap is no longer pending.
    pub fn resize(&mut self, new_cols: usize, new_rows: usize)
        requires
            old(self)@.wf(),
            new_cols <= MAX_SIDE,
            new_rows + old(self)@.scrollback_limit < MAX_SIDE,
        ensures
            final(self)@ == old(self)@.resized(new_cols, new_rows),
            final(self)@.wf(),
    {
        let ghost before = self@;
        let cols: usize = if new_cols < 1 {
            1
        } else {
            new_cols
        };
        let rows: usize = if new_rows < 1 {
            1
        } else {
            new_rows
        };
        proof {
            lemma_recolumned_wf(before, cols);
            lemma_resized_buffer_wf(before, new_cols, new_rows);
        }
        self.recolumn(cols);
        self.rerow(rows);
        self.rows = rows;
        self.scroll_top = 0;
        self.scroll_bottom = rows - 1;
        self.cursor.pending_wrap = false;
        assert(self@ =~= before.resized(new_cols, new_rows));
    }
}

/// A change of height alone moves only the boundary between the history and the screen: the
/// rows of the stream above the cursor's keep their ids, and a grow keeps them all.
pub proof fn lemma_height_change_keeps_the_stream(b: BufferView, rows: usize)
    requires
        b.wf(),
        1 <= rows,
        rows + b.scrollback_limit < MAX_SIDE,
        b.evicted + b.rows <= u64::MAX,
    ensures
        ({
            let o = b.resized(b.cols, rows);
            &&& rows >= b.rows ==> o.evicted == b.evicted && o.stream().take(
                b.stream().len() as int,
            ) == b.stream()
            &&& b.scrollback_limit > 0 ==> forall|i: int|
                o.evicted - b.evicted <= i < o.evicted - b.evicted + o.stream().len() && i
                    < b.stream().len() ==> #[trigger] b.stream()[i] == o.stream()[i - (o.evicted
                    - b.evicted)]
        }),
{
    let o = b.resized(b.cols, rows);
    if rows >= b.rows {
        let pull = least(rows - b.rows, b.scrollback.len() as int);
        let keep = b.scrollback.len() - pull;
        assert(o.stream().take(b.stream().len() as int) =~= b.stream());
        assert forall|i: int|
            o.evicted - b.evicted <= i < o.evicted - b.evicted + o.stream().len() && i
                < b.stream().len() implies #[trigger] b.stream()[i] == o.stream()[i - (o.evicted
            - b.evicted)] by {
            assert(o.stream().take(b.stream().len() as int)[i] == o.stream()[i]);
        }
    } else if b.scrollback_limit > 0 {
        let excess = b.rows - rows;
        let below = b.rows - (b.cursor.row + 1);
        let drop = least(excess, below);
        let push = excess - drop;
        let all = b.scrollback + b.lines.take(push);
        assert(all + b.lines.subrange(push, b.rows - drop) =~= b.stream().take(
            b.stream().len() - drop,
        ));
    }
}

} // verus!
