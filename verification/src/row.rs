//! One row of cells and its combining marks.
//!
//! Two cell shapes corrupt a screen when handled wrong. A wide character occupies two
//! columns, a leader that carries the rune and a spacer beside it; neither half means
//! anything alone, so every write, erase and shift here keeps them together. Combining
//! marks are rare, so a cell stores only the base rune and the marks overflow into a small
//! side list that travels with the row.
use vstd::prelude::*;
use crate::attrs::{lemma_wide_bits, Attrs};
use crate::cell::{lemma_plain_cell, narrow_cell, Cell};

verus! {

/// The most combining marks a single cell retains: just above what Unicode's Stream-Safe
/// format allows, so real text is never clipped and an unbounded stream cannot grow a cell.
pub const MAX_COMBINING_PER_CELL: usize = 32;

/// One combining mark riding along with the base cell in `col`, in arrival order.
#[derive(Clone, Copy, PartialEq, Eq, Debug, Structural)]
pub struct CombiningMark {
    pub col: usize,
    pub ch: char,
}

/// One row of cells plus its rare combining marks.
#[derive(Clone, Debug)]
pub struct Row {
    pub cells: Vec<Cell>,
    /// The row's combining marks, flattened: a column's marks read back by filtering.
    pub combining: Vec<CombiningMark>,
    /// Autowrap carried this line onto the next row: the two are one logical line.
    pub wrapped: bool,
}

/// A row as a value.
#[verifier::ext_equal]
pub struct RowView {
    pub cells: Seq<Cell>,
    pub marks: Seq<CombiningMark>,
    pub wrapped: bool,
}

impl View for Row {
    type V = RowView;

    open spec fn view(&self) -> RowView {
        RowView { cells: self.cells@, marks: self.combining@, wrapped: self.wrapped }
    }
}

/// The wide characters around column `i` are whole: a leader there has its spacer beside
/// it, a spacer there its leader, and no cell is both.
pub open spec fn pair_at(cells: Seq<Cell>, i: int) -> bool {
    &&& cells[i].leader() ==> i + 1 < cells.len() && cells[i + 1].spacer() && !cells[i].spacer()
    &&& cells[i].spacer() ==> i > 0 && cells[i - 1].leader()
}

/// No half of a wide character stands alone.
pub open spec fn paired(cells: Seq<Cell>) -> bool {
    forall|i: int| 0 <= i < cells.len() ==> #[trigger] pair_at(cells, i)
}

/// The marks that do not sit in columns `lo` up to `hi`.
pub open spec fn drop_marks(marks: Seq<CombiningMark>, lo: int, hi: int) -> Seq<CombiningMark>
    decreases marks.len(),
{
    if marks.len() == 0 {
        Seq::empty()
    } else {
        let rest = drop_marks(marks.drop_last(), lo, hi);
        if lo <= marks.last().col < hi {
            rest
        } else {
            rest.push(marks.last())
        }
    }
}

/// The marks of column `col`, in arrival order.
pub open spec fn marks_of(marks: Seq<CombiningMark>, col: int) -> Seq<char>
    decreases marks.len(),
{
    if marks.len() == 0 {
        Seq::empty()
    } else {
        let rest = marks_of(marks.drop_last(), col);
        if marks.last().col == col {
            rest.push(marks.last().ch)
        } else {
            rest
        }
    }
}

/// Every mark with its column moved by `by` where it stood at `from` or beyond.
pub open spec fn shift_marks(marks: Seq<CombiningMark>, from: int, by: int) -> Seq<CombiningMark> {
    Seq::new(
        marks.len(),
        |i: int|
            if marks[i].col >= from {
                CombiningMark { col: (marks[i].col + by) as usize, ch: marks[i].ch }
            } else {
                marks[i]
            },
    )
}

/// Every mark sits in a column below `cols`.
pub open spec fn marks_below(marks: Seq<CombiningMark>, cols: int) -> bool {
    forall|i: int| 0 <= i < marks.len() ==> (#[trigger] marks[i]).col < cols
}

impl RowView {
    /// A row of `cols` cells with whole wide characters and marks only where cells are.
    pub open spec fn wf(self, cols: int) -> bool {
        &&& self.cells.len() == cols
        &&& paired(self.cells)
        &&& marks_below(self.marks, cols)
    }

    /// A row of nothing but `cell`.
    pub open spec fn filled(cols: int, cell: Cell) -> RowView {
        RowView {
            cells: Seq::new(cols as nat, |i: int| cell),
            marks: Seq::empty(),
            wrapped: false,
        }
    }

    /// The row with `glyphs` written over the cells from `start` on. A wide character the
    /// run cuts in two is blanked on the far side of the cut, the marks under the run go,
    /// and a run or a blanking that reaches the final column ends the line there.
    pub open spec fn overwrite(self, start: int, glyphs: Seq<Cell>) -> RowView {
        let end = start + glyphs.len();
        let cut_left = glyphs.len() > 0 && self.cells[start].spacer();
        let cut_right = glyphs.len() > 0 && end < self.cells.len() && self.cells[end].spacer();
        RowView {
            cells: Seq::new(
                self.cells.len(),
                |j: int|
                    if start <= j < end {
                        glyphs[j - start]
                    } else if (cut_left && j == start - 1) || (cut_right && j == end) {
                        Cell::blank()
                    } else {
                        self.cells[j]
                    },
            ),
            marks: drop_marks(
                self.marks,
                if cut_left {
                    start - 1
                } else {
                    start
                },
                end,
            ),
            wrapped: self.wrapped && !(glyphs.len() > 0 && end >= self.cells.len()) && !(cut_right
                && end + 1 == self.cells.len()),
        }
    }

    /// The row with columns `lo` up to `hi` erased to `blank`, the range grown over the
    /// other half of a wide character at either edge.
    pub open spec fn erase(self, lo: int, hi: int, blank: Cell) -> RowView {
        let len = self.cells.len() as int;
        let hi = if hi < len {
            hi
        } else {
            len
        };
        if lo >= hi {
            self
        } else {
            let lo = if self.cells[lo].spacer() && lo > 0 {
                lo - 1
            } else {
                lo
            };
            let hi = if self.cells[hi - 1].leader() && hi < len {
                hi + 1
            } else {
                hi
            };
            RowView {
                cells: Seq::new(
                    self.cells.len(),
                    |j: int|
                        if lo <= j < hi {
                            blank
                        } else {
                            self.cells[j]
                        },
                ),
                marks: drop_marks(self.marks, lo, hi),
                wrapped: self.wrapped && hi != len,
            }
        }
    }

    /// The row with a wide character straddling the boundary before `col` blanked, so that
    /// the row can be cut there.
    pub open spec fn split(self, col: int, blank: Cell) -> RowView {
        if 0 < col < self.cells.len() && self.cells[col].spacer() {
            RowView {
                cells: self.cells.update(col - 1, blank).update(col, blank),
                marks: drop_marks(self.marks, col - 1, col + 1),
                wrapped: self.wrapped,
            }
        } else {
            self
        }
    }

    /// The row with `n` blanks opened at `col`, the rest shifted right and off the edge.
    pub open spec fn insert(self, col: int, n: int, blank: Cell) -> RowView {
        let len = self.cells.len() as int;
        if col >= len {
            self
        } else {
            let n = if n < len - col {
                n
            } else {
                len - col
            };
            let s = self.split(col, blank).split(len - n, blank);
            RowView {
                cells: Seq::new(
                    self.cells.len(),
                    |j: int|
                        if j < col {
                            s.cells[j]
                        } else if j < col + n {
                            blank
                        } else {
                            s.cells[j - n]
                        },
                ),
                marks: shift_marks(
                    drop_marks(
                        s.marks,
                        if col > len - n {
                            col
                        } else {
                            len - n
                        },
                        len,
                    ),
                    col,
                    n,
                ),
                wrapped: false,
            }
        }
    }

    /// The row with `n` cells taken out at `col`, the rest shifted left, blanks at the end.
    pub open spec fn delete(self, col: int, n: int, blank: Cell) -> RowView {
        let len = self.cells.len() as int;
        if col >= len {
            self
        } else {
            let n = if n < len - col {
                n
            } else {
                len - col
            };
            let s = self.split(col, blank).split(col + n, blank);
            RowView {
                cells: Seq::new(
                    self.cells.len(),
                    |j: int|
                        if j < col {
                            s.cells[j]
                        } else if j < len - n {
                            s.cells[j + n]
                        } else {
                            blank
                        },
                ),
                marks: shift_marks(drop_marks(s.marks, col, col + n), col + n, -n),
                wrapped: false,
            }
        }
    }

    /// The row cut or padded with blanks to `cols` columns; a leader whose spacer fell off
    /// is blanked. The wrap link is line state and stays.
    pub open spec fn resized(self, cols: int) -> RowView {
        let len = self.cells.len() as int;
        RowView {
            cells: Seq::new(
                cols as nat,
                |j: int|
                    if j < len && !(j == cols - 1 && cols < len && self.cells[j].leader()) {
                        self.cells[j]
                    } else {
                        Cell::blank()
                    },
            ),
            marks: if cols < len {
                drop_marks(self.marks, cols, len)
            } else {
                self.marks
            },
            wrapped: self.wrapped,
        }
    }

    /// The row with `mark` added to column `col`, unless that column is full of marks.
    pub open spec fn marked(self, col: int, mark: char) -> RowView {
        if marks_of(self.marks, col).len() >= MAX_COMBINING_PER_CELL {
            self
        } else {
            RowView { marks: self.marks.push(CombiningMark { col: col as usize, ch: mark }), ..self }
        }
    }

    /// The row with its narrow cell at `col` grown into a wide character over the cell
    /// beside it: what stood there goes, the marks stay.
    pub open spec fn widened(self, col: int) -> RowView {
        let cell = self.cells[col];
        let leader = Cell { attrs: cell.attrs.with(Attrs(128)), ..cell };
        let spacer = Cell { rune: ' ', attrs: cell.attrs.with(Attrs(256)), ..cell };
        RowView { marks: self.marks, ..self.overwrite(col, seq![leader, spacer]) }
    }

    /// The row's text from column `from` up to `to`: base runes with their marks, the
    /// right halves of wide characters skipped.
    pub open spec fn text(self, from: int, to: int) -> Seq<char>
        decreases to - from,
    {
        if from >= to {
            Seq::empty()
        } else {
            let before = self.text(from, to - 1);
            let cell = if to - 1 < self.cells.len() {
                self.cells[to - 1]
            } else {
                Cell::blank()
            };
            if cell.spacer() {
                before
            } else {
                before.push(cell.rune) + marks_of(self.marks, to - 1)
            }
        }
    }
}

// ---- marks ---------------------------------------------------------------------------

/// Dropping keeps only marks that were there, none of them in the dropped columns.
pub proof fn lemma_drop_marks(marks: Seq<CombiningMark>, lo: int, hi: int, cols: int)
    requires
        marks_below(marks, cols),
    ensures
        marks_below(drop_marks(marks, lo, hi), cols),
        drop_marks(marks, lo, hi).len() <= marks.len(),
        forall|i: int|
            0 <= i < drop_marks(marks, lo, hi).len() ==> !(lo <= (#[trigger] drop_marks(
                marks,
                lo,
                hi,
            )[i]).col < hi),
        lo >= hi ==> drop_marks(marks, lo, hi) == marks,
        marks.len() == 0 ==> drop_marks(marks, lo, hi) == marks,
    decreases marks.len(),
{
    if marks.len() > 0 {
        let init = marks.drop_last();
        assert forall|i: int| 0 <= i < init.len() implies (#[trigger] init[i]).col < cols by {
            assert(init[i] == marks[i]);
        }
        lemma_drop_marks(init, lo, hi, cols);
        if lo >= hi {
            assert(init.push(marks.last()) =~= marks);
        }
    }
}

/// Dropping two adjoining ranges is dropping the range they make up.
pub proof fn lemma_drop_marks_join(marks: Seq<CombiningMark>, lo: int, mid: int, hi: int)
    requires
        lo <= mid <= hi,
    ensures
        drop_marks(drop_marks(marks, lo, mid), mid, hi) == drop_marks(marks, lo, hi),
    decreases marks.len(),
{
    if marks.len() > 0 {
        let init = marks.drop_last();
        lemma_drop_marks_join(init, lo, mid, hi);
        let kept = drop_marks(init, lo, mid);
        if !(lo <= marks.last().col < mid) {
            assert(kept.push(marks.last()).drop_last() =~= kept);
        }
    }
}

/// The marks of a column outside the dropped range are untouched; inside it there are none.
pub proof fn lemma_marks_of_dropped(marks: Seq<CombiningMark>, lo: int, hi: int, col: int)
    ensures
        marks_of(drop_marks(marks, lo, hi), col) == (if lo <= col < hi {
            Seq::<char>::empty()
        } else {
            marks_of(marks, col)
        }),
    decreases marks.len(),
{
    if marks.len() > 0 {
        lemma_marks_of_dropped(marks.drop_last(), lo, hi, col);
        let rest = drop_marks(marks.drop_last(), lo, hi);
        if !(lo <= marks.last().col < hi) {
            assert(rest.push(marks.last()).drop_last() =~= rest);
        }
    }
}

// ---- wide characters -----------------------------------------------------------------

/// A row of one narrow cell repeated is whole.
pub proof fn lemma_filled_wf(cols: int, cell: Cell)
    requires
        cols >= 0,
        narrow_cell(cell),
    ensures
        RowView::filled(cols, cell).wf(cols),
{
    let cells = RowView::filled(cols, cell).cells;
    assert forall|i: int| 0 <= i < cells.len() implies #[trigger] pair_at(cells, i) by {}
}

/// Writing whole glyphs keeps a row whole.
pub proof fn lemma_overwrite_wf(r: RowView, cols: int, start: int, glyphs: Seq<Cell>)
    requires
        r.wf(cols),
        paired(glyphs),
        0 <= start,
        start + glyphs.len() <= cols,
        start < cols,
    ensures
        r.overwrite(start, glyphs).wf(cols),
{
    let o = r.overwrite(start, glyphs);
    let end = start + glyphs.len();
    lemma_plain_cell(Cell::blank());
    lemma_drop_marks(
        r.marks,
        if glyphs.len() > 0 && r.cells[start].spacer() {
            start - 1
        } else {
            start
        },
        end,
        cols,
    );
    assert forall|i: int| 0 <= i < o.cells.len() implies #[trigger] pair_at(o.cells, i) by {
        assert(pair_at(r.cells, i));
        if i + 1 < cols {
            assert(pair_at(r.cells, i + 1));
        }
        if i > 0 {
            assert(pair_at(r.cells, i - 1));
        }
        if start <= i < end {
            assert(pair_at(glyphs, i - start));
        }
        if start <= i - 1 < end {
            assert(pair_at(glyphs, i - 1 - start));
        }
        if start <= i + 1 < end {
            assert(pair_at(glyphs, i + 1 - start));
        }
        assert(pair_at(r.cells, start));
        if end < cols {
            assert(pair_at(r.cells, end));
        }
    }
}

/// Writing one run of whole glyphs and then another right after it is writing both at once.
pub proof fn lemma_overwrite_join(r: RowView, cols: int, start: int, a: Seq<Cell>, b: Seq<Cell>)
    requires
        r.wf(cols),
        paired(a),
        paired(b),
        0 <= start,
        a.len() > 0,
        b.len() > 0,
        start + a.len() + b.len() <= cols,
    ensures
        r.overwrite(start, a).overwrite(start + a.len(), b) == r.overwrite(start, a + b),
{
    let mid = start + a.len();
    let end = mid + b.len();
    let one = r.overwrite(start, a);
    let two = one.overwrite(mid, b);
    let both = r.overwrite(start, a + b);
    lemma_plain_cell(Cell::blank());
    assert(pair_at(r.cells, mid));
    assert(pair_at(r.cells, start));
    assert(pair_at(b, 0));
    if end < cols {
        assert(pair_at(r.cells, end));
    }
    assert(!one.cells[mid].spacer());
    assert(two.cells =~= both.cells);
    let lo = if r.cells[start].spacer() {
        start - 1
    } else {
        start
    };
    lemma_drop_marks_join(r.marks, lo, mid, end);
    assert(two.marks == both.marks);
    assert(two.wrapped == both.wrapped);
}

/// Erasing keeps a row whole.
pub proof fn lemma_erase_wf(r: RowView, cols: int, lo: int, hi: int, blank: Cell)
    requires
        r.wf(cols),
        narrow_cell(blank),
        0 <= lo,
    ensures
        r.erase(lo, hi, blank).wf(cols),
{
    let e = r.erase(lo, hi, blank);
    let top = if hi < cols {
        hi
    } else {
        cols
    };
    if lo < top {
        assert(pair_at(r.cells, lo));
        assert(pair_at(r.cells, top - 1));
        let l = if r.cells[lo].spacer() && lo > 0 {
            lo - 1
        } else {
            lo
        };
        let h = if r.cells[top - 1].leader() && top < cols {
            top + 1
        } else {
            top
        };
        lemma_drop_marks(r.marks, l, h, cols);
        assert forall|i: int| 0 <= i < e.cells.len() implies #[trigger] pair_at(e.cells, i) by {
            assert(pair_at(r.cells, i));
            if i + 1 < cols {
                assert(pair_at(r.cells, i + 1));
            }
            if i > 0 {
                assert(pair_at(r.cells, i - 1));
            }
            assert(pair_at(r.cells, l));
            if h < cols {
                assert(pair_at(r.cells, h));
            }
        }
    }
}

/// Splitting keeps a row whole, and no wide character straddles the split any more.
pub proof fn lemma_split_wf(r: RowView, cols: int, col: int, blank: Cell)
    requires
        r.wf(cols),
        narrow_cell(blank),
        0 <= col <= cols,
    ensures
        r.split(col, blank).wf(cols),
        col < cols ==> !r.split(col, blank).cells[col].spacer(),
        forall|i: int|
            0 <= i < cols && !(#[trigger] r.cells[i]).spacer() ==> !r.split(col, blank).cells[i].spacer(),
{
    let s = r.split(col, blank);
    if col < cols {
        assert(pair_at(r.cells, col));
    }
    lemma_drop_marks(r.marks, col - 1, col + 1, cols);
    assert forall|i: int| 0 <= i < s.cells.len() implies #[trigger] pair_at(s.cells, i) by {
        assert(pair_at(r.cells, i));
        if i + 1 < cols {
            assert(pair_at(r.cells, i + 1));
        }
        if i > 0 {
            assert(pair_at(r.cells, i - 1));
        }
    }
}

proof fn lemma_shift_below(marks: Seq<CombiningMark>, from: int, by: int, cols: int)
    requires
        cols <= usize::MAX,
        marks_below(marks, cols),
        forall|i: int|
            0 <= i < marks.len() && (#[trigger] marks[i]).col >= from ==> 0 <= marks[i].col + by
                < cols,
    ensures
        marks_below(shift_marks(marks, from, by), cols),
{
    let t = shift_marks(marks, from, by);
    assert forall|i: int| 0 <= i < t.len() implies (#[trigger] t[i]).col < cols by {
        assert(marks[i].col < cols);
    }
}

/// Inserting blanks keeps a row whole.
pub proof fn lemma_insert_wf(r: RowView, cols: int, col: int, n: int, blank: Cell)
    requires
        cols <= usize::MAX,
        r.wf(cols),
        narrow_cell(blank),
        0 <= col,
        0 <= n,
    ensures
        r.insert(col, n, blank).wf(cols),
{
    if col < cols {
        let n = if n < cols - col {
            n
        } else {
            cols - col
        };
        let s1 = r.split(col, blank);
        lemma_split_wf(r, cols, col, blank);
        lemma_split_wf(s1, cols, cols - n, blank);
        let s = s1.split(cols - n, blank);
        let o = r.insert(col, n, blank);
        assert(!s1.cells[col].spacer());
        assert(!s.cells[col].spacer());
        assert forall|i: int| 0 <= i < o.cells.len() implies #[trigger] pair_at(o.cells, i) by {
            if i < col {
                assert(pair_at(s.cells, i));
                if i + 1 == col {
                    assert(pair_at(s.cells, col));
                }
            } else if i >= col + n {
                assert(pair_at(s.cells, i - n));
                if i + 1 == cols && cols - n < cols {
                    assert(pair_at(s.cells, cols - n));
                }
            }
        }
        let lo = if col > cols - n {
            col
        } else {
            cols - n
        };
        lemma_drop_marks(s.marks, lo, cols, cols);
        let kept = drop_marks(s.marks, lo, cols);
        assert forall|i: int| 0 <= i < kept.len() && (#[trigger] kept[i]).col >= col implies 0
            <= kept[i].col + n < cols by {
            assert(!(lo <= kept[i].col < cols));
        }
        lemma_shift_below(kept, col, n, cols);
    }
}

/// Deleting cells keeps a row whole.
pub proof fn lemma_delete_wf(r: RowView, cols: int, col: int, n: int, blank: Cell)
    requires
        cols <= usize::MAX,
        r.wf(cols),
        narrow_cell(blank),
        0 <= col,
        0 <= n,
    ensures
        r.delete(col, n, blank).wf(cols),
{
    if col < cols {
        let n = if n < cols - col {
            n
        } else {
            cols - col
        };
        let s1 = r.split(col, blank);
        lemma_split_wf(r, cols, col, blank);
        lemma_split_wf(s1, cols, col + n, blank);
        let s = s1.split(col + n, blank);
        let o = r.delete(col, n, blank);
        assert(!s1.cells[col].spacer());
        assert(!s.cells[col].spacer());
        assert forall|i: int| 0 <= i < o.cells.len() implies #[trigger] pair_at(o.cells, i) by {
            if i < col {
                assert(pair_at(s.cells, i));
                if i + 1 == col {
                    assert(pair_at(s.cells, col));
                }
            } else if i < cols - n {
                assert(pair_at(s.cells, i + n));
            }
        }
        lemma_drop_marks(s.marks, col, col + n, cols);
        let kept = drop_marks(s.marks, col, col + n);
        assert forall|i: int| 0 <= i < kept.len() && (#[trigger] kept[i]).col >= col + n implies 0
            <= kept[i].col - n < cols by {}
        lemma_shift_below(kept, col + n, -n, cols);
    }
}

/// Cutting or padding keeps a row whole.
pub proof fn lemma_resized_wf(r: RowView, cols: int, new_cols: int)
    requires
        r.wf(cols),
        1 <= new_cols,
    ensures
        r.resized(new_cols).wf(new_cols),
{
    let o = r.resized(new_cols);
    lemma_plain_cell(Cell::blank());
    lemma_drop_marks(r.marks, new_cols, cols, cols);
    if new_cols < cols {
        assert forall|i: int| 0 <= i < o.marks.len() implies (#[trigger] o.marks[i]).col
            < new_cols by {
            assert(!(new_cols <= o.marks[i].col < cols));
        }
    }
    assert forall|i: int| 0 <= i < o.cells.len() implies #[trigger] pair_at(o.cells, i) by {
        if i < cols {
            assert(pair_at(r.cells, i));
        }
        if i + 1 < cols {
            assert(pair_at(r.cells, i + 1));
        }
        if 0 < i <= cols {
            assert(pair_at(r.cells, i - 1));
        }
    }
}

/// Growing a narrow cell into a wide one keeps a row whole.
pub proof fn lemma_widened_wf(r: RowView, cols: int, col: int)
    requires
        r.wf(cols),
        0 <= col,
        col + 1 < cols,
        narrow_cell(r.cells[col]),
    ensures
        r.widened(col).wf(cols),
{
    let cell = r.cells[col];
    lemma_wide_bits(cell.attrs);
    let leader = Cell { attrs: cell.attrs.with(Attrs(128)), ..cell };
    let spacer = Cell { rune: ' ', attrs: cell.attrs.with(Attrs(256)), ..cell };
    let glyphs = seq![leader, spacer];
    assert forall|i: int| 0 <= i < glyphs.len() implies #[trigger] pair_at(glyphs, i) by {}
    lemma_overwrite_wf(r, cols, col, glyphs);
}

// ---- the row itself ------------------------------------------------------------------

/// Overwrite `cells[lo..hi]` with `cell`.
fn fill_cells(cells: &mut Vec<Cell>, lo: usize, hi: usize, cell: Cell)
    requires
        lo <= hi <= old(cells).len(),
    ensures
        final(cells)@ == Seq::new(
            old(cells)@.len(),
            |j: int|
                if lo <= j < hi {
                    cell
                } else {
                    old(cells)@[j]
                },
        ),
{
    let mut i: usize = lo;
    while i < hi
        invariant
            lo <= i <= hi <= cells.len(),
            cells@.len() == old(cells)@.len(),
            forall|j: int|
                0 <= j < cells@.len() ==> #[trigger] cells@[j] == (if lo <= j < i {
                    cell
                } else {
                    old(cells)@[j]
                }),
        decreases hi - i,
    {
        cells[i] = cell;
        i = i + 1;
    }
    assert(cells@ =~= Seq::new(
        old(cells)@.len(),
        |j: int|
            if lo <= j < hi {
                cell
            } else {
                old(cells)@[j]
            },
    ));
}

/// The marks that do not sit in columns `lo` up to `hi`.
pub fn kept_marks(marks: &Vec<CombiningMark>, lo: usize, hi: usize) -> (r: Vec<CombiningMark>)
    ensures
        r@ == drop_marks(marks@, lo as int, hi as int),
{
    let mut out: Vec<CombiningMark> = Vec::new();
    let mut i: usize = 0;
    assert(marks@.take(0) =~= Seq::empty());
    while i < marks.len()
        invariant
            i <= marks.len(),
            out@ == drop_marks(marks@.take(i as int), lo as int, hi as int),
        decreases marks.len() - i,
    {
        let m = marks[i];
        assert(marks@.take(i + 1).drop_last() =~= marks@.take(i as int));
        if m.col < lo || m.col >= hi {
            out.push(m);
        }
        i = i + 1;
    }
    assert(marks@.take(i as int) =~= marks@);
    out
}

/// Whether any of the marks sits in `col`.
pub fn any_mark(marks: &Vec<CombiningMark>, col: usize) -> (r: bool)
    ensures
        r == (marks_of(marks@, col as int).len() > 0),
{
    let mut i: usize = marks.len();
    assert(marks@.take(i as int) =~= marks@);
    while i > 0
        invariant
            i <= marks@.len(),
            marks_of(marks@, col as int).len() > 0 <==> marks_of(
                marks@.take(i as int),
                col as int,
            ).len() > 0,
        decreases i,
    {
        assert(marks@.take(i as int).drop_last() =~= marks@.take(i - 1));
        if marks[i - 1].col == col {
            return true;
        }
        i = i - 1;
    }
    assert(marks@.take(0) =~= Seq::empty());
    false
}

impl Row {
    /// A row of `cols` copies of `cell`.
    pub fn filled(cols: usize, cell: Cell) -> (r: Row)
        ensures
            r@ == RowView::filled(cols as int, cell),
    {
        let r = Row { cells: vec![cell;cols], combining: Vec::new(), wrapped: false };
        assert(r@ =~= RowView::filled(cols as int, cell));
        r
    }

    /// Reset every cell to `blank` and drop the marks and the wrap link, reusing the row's
    /// storage: a recycled row must not glue two unrelated lines together.
    pub fn reset(&mut self, cols: usize, blank: Cell)
        ensures
            final(self)@ == RowView::filled(cols as int, blank),
    {
        if self.cells.len() == cols {
            fill_cells(&mut self.cells, 0, cols, blank);
        } else {
            self.cells.clear();
            self.cells.resize(cols, blank);
        }
        self.combining.clear();
        self.wrapped = false;
        assert(self@.cells =~= RowView::filled(cols as int, blank).cells);
    }

    fn drop_marks(&mut self, lo: usize, hi: usize)
        ensures
            final(self)@ == (RowView {
                marks: drop_marks(old(self)@.marks, lo as int, hi as int),
                ..old(self)@
            }),
    {
        if self.combining.len() > 0 {
            self.combining = kept_marks(&self.combining, lo, hi);
        } else {
            proof {
                lemma_drop_marks(self.combining@, lo as int, hi as int, 0);
            }
        }
    }

    /// Blank a wide glyph straddling the boundary before `col`, so an operation that cuts
    /// the row there cannot leave half a glyph behind.
    pub fn split_wide_at(&mut self, col: usize, blank: Cell)
        requires
            old(self)@.cells.len() < usize::MAX,
        ensures
            final(self)@ == old(self)@.split(col as int, blank),
    {
        if col == 0 || col >= self.cells.len() || !self.cells[col].is_wide_spacer() {
            return;
        }
        self.cells[col - 1] = blank;
        self.cells[col] = blank;
        self.drop_marks(col - 1, col + 1);
    }

    /// The combining marks attached to `col`, in arrival order.
    pub fn marks(&self, col: usize) -> (r: Vec<char>)
        ensures
            r@ == marks_of(self@.marks, col as int),
    {
        let mut out: Vec<char> = Vec::new();
        let mut i: usize = 0;
        assert(self.combining@.take(0) =~= Seq::empty());
        while i < self.combining.len()
            invariant
                i <= self.combining.len(),
                out@ == marks_of(self.combining@.take(i as int), col as int),
            decreases self.combining.len() - i,
        {
            let m = self.combining[i];
            assert(self.combining@.take(i + 1).drop_last() =~= self.combining@.take(i as int));
            if m.col == col {
                out.push(m.ch);
            }
            i = i + 1;
        }
        assert(self.combining@.take(i as int) =~= self.combining@);
        out
    }

    /// Whether `col` carries any combining mark.
    pub fn has_marks(&self, col: usize) -> (r: bool)
        ensures
            r == (marks_of(self@.marks, col as int).len() > 0),
    {
        any_mark(&self.combining, col)
    }

    /// Attach `mark` to `col`, unless the column already holds as many as a cell retains.
    pub fn add_mark(&mut self, col: usize, mark: char)
        ensures
            final(self)@ == old(self)@.marked(col as int, mark),
    {
        let have = self.marks(col);
        if have.len() >= MAX_COMBINING_PER_CELL {
            return;
        }
        self.combining.push(CombiningMark { col, ch: mark });
    }

    /// Grow or shrink the row to `new_cols`, padding with blanks or truncating.
    pub fn resize_cols(&mut self, new_cols: usize)
        requires
            old(self)@.wf(old(self)@.cells.len() as int),
            1 <= new_cols,
        ensures
            final(self)@ == old(self)@.resized(new_cols as int),
    {
        let old_len = self.cells.len();
        let ghost before = self@;
        if new_cols < old_len {
            self.cells.truncate(new_cols);
            self.drop_marks(new_cols, old_len);
            if self.cells[new_cols - 1].is_wide_leader() {
                self.cells[new_cols - 1] = Cell::blank();
            }
        } else if new_cols > old_len {
            self.cells.resize(new_cols, Cell::blank());
            assert forall|j: int| 0 <= j < old_len implies self.cells@[j] == before.cells[j] by {
                assert(self.cells@.subrange(0, old_len as int)[j] == self.cells@[j]);
            }
        }
        assert(self@.cells =~= before.resized(new_cols as int).cells);
        assert(self@ =~= before.resized(new_cols as int));
    }

    /// Write `cell` at `col`, first breaking any wide pair it straddles and dropping the
    /// marks the overwritten cell carried.
    pub fn write_cell(&mut self, col: usize, cell: Cell)
        requires
            old(self)@.wf(old(self)@.cells.len() as int),
            col < old(self)@.cells.len(),
        ensures
            final(self)@ == old(self)@.overwrite(col as int, seq![cell]),
    {
        let ghost before = self@;
        proof {
            assert(pair_at(before.cells, col as int));
            if col + 1 < before.cells.len() {
                assert(pair_at(before.cells, col + 1));
            }
        }
        let existing = self.cells[col];
        let len = self.cells.len();
        let mut low: usize = col;
        if existing.is_wide_leader() {
            self.cells[col + 1] = Cell::blank();
            if col + 2 == len {
                self.wrapped = false;
            }
        } else if existing.is_wide_spacer() {
            self.cells[col - 1] = Cell::blank();
            low = col - 1;
        }
        self.cells[col] = cell;
        if col + 1 == len {
            self.wrapped = false;
        }
        if self.combining.len() > 0 {
            self.combining = kept_marks(&self.combining, low, col + 1);
        } else {
            proof {
                lemma_drop_marks(before.marks, low as int, col + 1, 0);
            }
        }
        assert(self@.cells =~= before.overwrite(col as int, seq![cell]).cells);
        assert(self@ =~= before.overwrite(col as int, seq![cell]));
    }

    /// Write a whole run of glyph cells from `start` on. Only the two edges can cut a wide
    /// character: one wholly under the run has both halves overwritten.
    pub fn write_run(&mut self, start: usize, glyphs: &Vec<Cell>)
        requires
            old(self)@.wf(old(self)@.cells.len() as int),
            start + glyphs@.len() <= old(self)@.cells.len(),
            glyphs@.len() > 0,
        ensures
            final(self)@ == old(self)@.overwrite(start as int, glyphs@),
    {
        let ghost before = self@;
        let len = self.cells.len();
        let end: usize = start + glyphs.len();
        let mut low: usize = start;
        proof {
            assert(pair_at(before.cells, start as int));
            if end < len {
                assert(pair_at(before.cells, end as int));
            }
        }
        if self.cells[start].is_wide_spacer() {
            self.cells[start - 1] = Cell::blank();
            low = start - 1;
        }
        if end < len && self.cells[end].is_wide_spacer() {
            self.cells[end] = Cell::blank();
            if end + 1 == len {
                self.wrapped = false;
            }
        }
        let ghost edged = self.cells@;
        let mut k: usize = 0;
        while k < glyphs.len()
            invariant
                k <= glyphs.len(),
                end == start + glyphs.len(),
                end <= len,
                self.cells@.len() == len,
                edged.len() == len,
                self.combining@ == before.marks,
                self.wrapped == (before.wrapped && !(end < len && before.cells[end as int].spacer()
                    && end + 1 == len)),
                forall|j: int|
                    0 <= j < len ==> #[trigger] self.cells@[j] == (if start <= j < start + k {
                        glyphs@[j - start]
                    } else {
                        edged[j]
                    }),
            decreases glyphs.len() - k,
        {
            self.cells[start + k] = glyphs[k];
            k = k + 1;
        }
        if end == len {
            self.wrapped = false;
        }
        if self.combining.len() > 0 {
            self.combining = kept_marks(&self.combining, low, end);
        } else {
            proof {
                lemma_drop_marks(before.marks, low as int, end as int, 0);
            }
        }
        assert(self@.cells =~= before.overwrite(start as int, glyphs@).cells);
        assert(self@ =~= before.overwrite(start as int, glyphs@));
    }

    /// Blank cells from `start` up to `end`, growing the range over a wide glyph's other
    /// half at either edge. A range that reaches the final column ends the line.
    pub fn clear_range(&mut self, start: usize, end: usize, blank: Cell)
        requires
            old(self)@.wf(old(self)@.cells.len() as int),
        ensures
            final(self)@ == old(self)@.erase(start as int, end as int, blank),
    {
        let ghost before = self@;
        let len = self.cells.len();
        let mut lo: usize = start;
        let mut hi: usize = if end < len {
            end
        } else {
            len
        };
        if lo >= hi {
            return;
        }
        if self.cells[lo].is_wide_spacer() && lo > 0 {
            lo = lo - 1;
        }
        if self.cells[hi - 1].is_wide_leader() && hi < len {
            hi = hi + 1;
        }
        fill_cells(&mut self.cells, lo, hi, blank);
        self.drop_marks(lo, hi);
        if hi == len {
            self.wrapped = false;
        }
        assert(self@.cells =~= before.erase(start as int, end as int, blank).cells);
        assert(self@ =~= before.erase(start as int, end as int, blank));
    }

    /// Overwrite every cell with `fill`, dropping the marks and the wrap link.
    pub fn clear_full(&mut self, fill: Cell)
        ensures
            final(self)@ == RowView::filled(old(self)@.cells.len() as int, fill),
    {
        let len = self.cells.len();
        fill_cells(&mut self.cells, 0, len, fill);
        self.combining.clear();
        self.wrapped = false;
        assert(self@.cells =~= RowView::filled(len as int, fill).cells);
    }

    /// ICH: shift the cells from `col` on right by `n`, blanking the opened ones; cells
    /// pushed past the right edge are lost, and the wrap link with them.
    pub fn insert_blanks(&mut self, col: usize, n: usize, blank: Cell)
        requires
            old(self)@.wf(old(self)@.cells.len() as int),
            old(self)@.cells.len() < usize::MAX,
            narrow_cell(blank),
        ensures
            final(self)@ == old(self)@.insert(col as int, n as int, blank),
    {
        let ghost before = self@;
        let len = self.cells.len();
        if col >= len {
            return;
        }
        let n: usize = if n < len - col {
            n
        } else {
            len - col
        };
        proof {
            lemma_split_wf(before, len as int, col as int, blank);
        }
        self.split_wide_at(col, blank);
        self.split_wide_at(len - n, blank);
        let ghost s = self@;
        proof {
            lemma_split_wf(before.split(col as int, blank), len as int, len - n, blank);
        }
        let mut j: usize = len;
        while j > col + n
            invariant
                col + n <= j <= len,
                self.cells@.len() == len,
                s.cells.len() == len,
                self.combining@ == s.marks,
                forall|k: int|
                    0 <= k < len ==> #[trigger] self.cells@[k] == (if k >= j {
                        s.cells[k - n]
                    } else {
                        s.cells[k]
                    }),
            decreases j,
        {
            j = j - 1;
            let c = self.cells[j - n];
            self.cells[j] = c;
        }
        fill_cells(&mut self.cells, col, col + n, blank);
        let low: usize = if col > len - n {
            col
        } else {
            len - n
        };
        if self.combining.len() > 0 {
            self.combining = kept_marks(&self.combining, low, len);
        } else {
            proof {
                lemma_drop_marks(s.marks, low as int, len as int, 0);
            }
        }
        proof {
            lemma_drop_marks(s.marks, low as int, len as int, len as int);
        }
        let ghost kept = self.combining@;
        let mut i: usize = 0;
        while i < self.combining.len()
            invariant
                i <= self.combining.len(),
                self.combining@.len() == kept.len(),
                marks_below(kept, len as int),
                n <= len,
                low >= len - n,
                low >= col,
                low == col || low == len - n,
                len < usize::MAX,
                kept == drop_marks(s.marks, low as int, len as int),
                forall|k: int|
                    0 <= k < kept.len() ==> !(low <= (#[trigger] kept[k]).col < len),
                forall|k: int|
                    0 <= k < kept.len() ==> #[trigger] self.combining@[k] == (if k < i
                        && kept[k].col >= col {
                        CombiningMark { col: (kept[k].col + n) as usize, ch: kept[k].ch }
                    } else {
                        kept[k]
                    }),
                self.cells@ == before.insert(col as int, n as int, blank).cells,
            decreases self.combining.len() - i,
        {
            let m = self.combining[i];
            assert(m == kept[i as int]);
            assert(kept[i as int].col < len);
            if m.col >= col {
                self.combining[i] = CombiningMark { col: m.col + n, ch: m.ch };
            }
            i = i + 1;
        }
        self.wrapped = false;
        assert(self.combining@ =~= shift_marks(kept, col as int, n as int));
        assert(self@ =~= before.insert(col as int, n as int, blank));
    }

    /// DCH: shift the cells right of the deleted ones left by `n`, blanking the tail; the
    /// line ends there, so the wrap link goes too.
    pub fn delete_chars(&mut self, col: usize, n: usize, blank: Cell)
        requires
            old(self)@.wf(old(self)@.cells.len() as int),
            old(self)@.cells.len() < usize::MAX,
            narrow_cell(blank),
        ensures
            final(self)@ == old(self)@.delete(col as int, n as int, blank),
    {
        let ghost before = self@;
        let len = self.cells.len();
        if col >= len {
            return;
        }
        let n: usize = if n < len - col {
            n
        } else {
            len - col
        };
        proof {
            lemma_split_wf(before, len as int, col as int, blank);
        }
        self.split_wide_at(col, blank);
        self.split_wide_at(col + n, blank);
        let ghost s = self@;
        proof {
            lemma_split_wf(before.split(col as int, blank), len as int, col + n, blank);
        }
        let mut j: usize = col;
        while j < len - n
            invariant
                col <= j <= len - n,
                n <= len,
                self.cells@.len() == len,
                s.cells.len() == len,
                self.combining@ == s.marks,
                forall|k: int|
                    0 <= k < len ==> #[trigger] self.cells@[k] == (if col <= k < j {
                        s.cells[k + n]
                    } else {
                        s.cells[k]
                    }),
            decreases len - j,
        {
            let c = self.cells[j + n];
            self.cells[j] = c;
            j = j + 1;
        }
        fill_cells(&mut self.cells, len - n, len, blank);
        if self.combining.len() > 0 {
            self.combining = kept_marks(&self.combining, col, col + n);
        } else {
            proof {
                lemma_drop_marks(s.marks, col as int, col + n, 0);
            }
        }
        let ghost kept = self.combining@;
        let mut i: usize = 0;
        while i < self.combining.len()
            invariant
                i <= self.combining.len(),
                col + n <= len,
                self.combining@.len() == kept.len(),
                kept == drop_marks(s.marks, col as int, col + n),
                forall|k: int|
                    0 <= k < kept.len() ==> #[trigger] self.combining@[k] == (if k < i
                        && kept[k].col >= col + n {
                        CombiningMark { col: (kept[k].col - n) as usize, ch: kept[k].ch }
                    } else {
                        kept[k]
                    }),
                self.cells@ == before.delete(col as int, n as int, blank).cells,
            decreases self.combining.len() - i,
        {
            let m = self.combining[i];
            assert(m == kept[i as int]);
            if m.col >= col + n {
                self.combining[i] = CombiningMark { col: m.col - n, ch: m.ch };
            }
            i = i + 1;
        }
        self.wrapped = false;
        assert(self.combining@ =~= shift_marks(kept, col + n, -n));
        assert(self@ =~= before.delete(col as int, n as int, blank));
    }

    /// Grow the narrow cell at `col` into a wide character over the cell beside it: a
    /// leader and a spacer, the shape a wide character has had all along. A wide character
    /// that began in that cell is broken up, so no half of it is left behind.
    pub fn widen(&mut self, col: usize)
        requires
            old(self)@.wf(old(self)@.cells.len() as int),
            col + 1 < old(self)@.cells.len(),
            narrow_cell(old(self)@.cells[col as int]),
        ensures
            final(self)@ == old(self)@.widened(col as int),
    {
        let ghost before = self@;
        let len = self.cells.len();
        proof {
            assert(pair_at(before.cells, col as int));
            assert(pair_at(before.cells, col + 1));
            if col + 2 < len {
                assert(pair_at(before.cells, col + 2));
            }
        }
        let cell = self.cells[col];
        if self.cells[col + 1].is_wide_leader() {
            self.cells[col + 2] = Cell::blank();
            if col + 3 == len {
                self.wrapped = false;
            }
        }
        let mut leader = cell;
        leader.attrs = cell.attrs | Attrs::wide_leader();
        let mut spacer = cell;
        spacer.rune = ' ';
        spacer.attrs = cell.attrs | Attrs::wide_spacer();
        self.cells[col] = leader;
        self.cells[col + 1] = spacer;
        if col + 2 == len {
            self.wrapped = false;
        }
        assert(self@.cells =~= before.widened(col as int).cells);
        assert(self@ =~= before.widened(col as int));
    }

    /// The row's text from column `from` up to `to`, appended to `out`. Columns past the
    /// row's end read as blanks.
    pub fn push_text(&self, from: usize, to: usize, out: &mut String)
        ensures
            final(out)@ == old(out)@ + self@.text(from as int, to as int),
    {
        let mut c: usize = from;
        assert(old(out)@ + self@.text(from as int, from as int) =~= old(out)@);
        if from >= to {
            assert(old(out)@ + self@.text(from as int, to as int) =~= old(out)@);
            return;
        }
        while c < to
            invariant
                from <= c <= to,
                out@ == old(out)@ + self@.text(from as int, c as int),
            decreases to - c,
        {
            let cell = if c < self.cells.len() {
                self.cells[c]
            } else {
                Cell::blank()
            };
            proof {
                lemma_plain_cell(Cell::blank());
            }
            if !cell.is_wide_spacer() {
                out.push(cell.rune);
                let marks = self.marks(c);
                push_chars(out, &marks);
            }
            c = c + 1;
            assert(out@ =~= old(out)@ + self@.text(from as int, c as int));
        }
    }
}

/// Append every character of `chars`.
pub fn push_chars(out: &mut String, chars: &Vec<char>)
    ensures
        final(out)@ == old(out)@ + chars@,
{
    let mut i: usize = 0;
    assert(old(out)@ + chars@.take(0) =~= old(out)@);
    while i < chars.len()
        invariant
            i <= chars.len(),
            out@ == old(out)@ + chars@.take(i as int),
        decreases chars.len() - i,
    {
        out.push(chars[i]);
        i = i + 1;
        assert(out@ =~= old(out)@ + chars@.take(i as int));
    }
    assert(chars@.take(i as int) =~= chars@);
}

} // verus!
