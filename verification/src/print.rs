//! Printing: where a glyph lands, what it displaces, and the bulk paths that write whole
//! rows at a time. Every bulk path is proved to leave the screen exactly as printing its
//! characters one by one would.
use vstd::prelude::*;
use crate::buffer::{
    glyph, glyph_widths, least, lemma_glyph_paired, lemma_run_cells, row_mut, run_cells,
    total_width, Buffer, BufferView,
};
use crate::cell::{narrow_cell, Cell, Cursor, Pen};
use crate::grapheme::BreakState;
use crate::row::{lemma_overwrite_join, lemma_widened_wf, marks_of, RowView};
use crate::screen::{ClusterAnchor, Screen, ScreenView};
use crate::text::bytes_text;
use crate::width::{
    cluster_columns, cluster_width, columns, lemma_byte_columns, lemma_columns, width,
};

verus! {

/// How many characters of a run are classified at a time.
pub const BATCH: usize = 128;

impl BufferView {
    /// A glyph of `w` columns put down at the cursor, shifting the rest of the row first
    /// where `shift` says so. A wide glyph that a single column denies goes in as an ordinary
    /// cell.
    pub open spec fn glyph_put(
        self,
        c: char,
        w: int,
        pen: Pen,
        shift: Option<Cell>,
        autowrap: bool,
    ) -> BufferView {
        let (row, col) = (self.cursor.row as int, self.cursor.col as int);
        let opened = match shift {
            Some(blank) => self.with_line(row, self.lines[row].insert(col, w, blank)),
            None => self,
        };
        opened.overwrite(row, col, glyph(c, w == 2 && col + 1 < self.cols, pen)).advanced(
            col + w,
            autowrap,
        )
    }

    /// A combining mark attached to the cell left of where the next glyph would land, or to
    /// the leader of the wide character there. Dropped where there is no such cell.
    pub open spec fn combined(self, mark: char) -> BufferView {
        let (row, col) = (self.cursor.row as int, self.cursor.col as int);
        if !self.cursor.pending_wrap && col == 0 {
            self
        } else {
            let base = if self.cursor.pending_wrap {
                self.cols - 1
            } else {
                col - 1
            };
            let base = if self.lines[row].cells[base].spacer() && base > 0 {
                base - 1
            } else {
                base
            };
            self.with_line(row, self.lines[row].marked(base, mark))
        }
    }

    /// The text of the cluster in a cell: its base rune and every mark that has joined it.
    pub open spec fn cluster_text(self, row: int, col: int) -> Seq<char> {
        seq![self.lines[row].cells[col].rune] + marks_of(self.lines[row].marks, col)
    }

    /// A cluster with one scalar more. A cluster that grows from one column to two takes the
    /// cell beside it, where there is one; at the right margin it stays narrow.
    pub open spec fn cluster_grown(self, row: int, col: int, c: char) -> BufferView {
        let b = self.with_line(row, self.lines[row].marked(col, c));
        if cluster_columns(self.cluster_text(row, col)) < 2 && cluster_columns(
            b.cluster_text(row, col),
        ) == 2 && col + 1 < self.cols && narrow_cell(self.lines[row].cells[col]) {
            BufferView {
                cursor: Cursor {
                    row: self.cursor.row,
                    col: least(col + 2, self.cols - 1) as usize,
                    pending_wrap: col + 2 >= self.cols,
                },
                ..b.with_line(row, b.lines[row].widened(col))
            }
        } else {
            b
        }
    }

    /// Glyphs written from the cursor on, all on its row.
    pub open spec fn run_put(
        self,
        chars: Seq<char>,
        widths: Seq<u8>,
        pen: Pen,
        autowrap: bool,
    ) -> BufferView {
        let (row, col) = (self.cursor.row as int, self.cursor.col as int);
        self.overwrite(row, col, run_cells(chars, widths, pen)).advanced(
            col + total_width(widths),
            autowrap,
        )
    }
}

impl ScreenView {
    /// The soft wrap: the row being left is linked to the next one, and the cursor goes to
    /// the start of that.
    #[verifier::opaque]
    pub open spec fn wrapped_line(self) -> ScreenView {
        let b = self.active();
        let row = b.cursor.row as int;
        self.with_active(
            b.with_line(row, RowView { wrapped: true, ..b.lines[row] }),
        ).line_fed().returned()
    }

    /// The screen with a deferred wrap performed.
    pub open spec fn unparked(self) -> ScreenView {
        if self.active().cursor.pending_wrap {
            self.wrapped_line()
        } else {
            self
        }
    }

    /// The screen with room for a glyph of `w` columns: a deferred wrap is performed, and a
    /// wide glyph with a single column left wraps too, or backs up where autowrap is off.
    pub open spec fn room_for(self, w: int) -> ScreenView {
        let s = self.unparked();
        let b = s.active();
        if w == 2 && b.cursor.col + 1 >= b.cols {
            if s.modes.autowrap {
                s.wrapped_line()
            } else {
                s.with_active(
                    BufferView {
                        cursor: Cursor {
                            col: if b.cols >= 2 {
                                (b.cols - 2) as usize
                            } else {
                                0
                            },
                            ..b.cursor
                        },
                        ..b
                    },
                )
            }
        } else {
            s
        }
    }

    /// The cell an insertion opens with, where insert mode is on.
    pub open spec fn shift(self) -> Option<Cell> {
        if self.modes.insert_mode {
            Some(self.blank())
        } else {
            None
        }
    }

    /// A glyph put down where the cursor is.
    pub open spec fn placed(self, c: char, w: int) -> ScreenView {
        let b = self.active();
        let put = b.glyph_put(c, w, self.pen, self.shift(), self.modes.autowrap);
        ScreenView {
            last_printed: Some(c),
            cluster_anchor: if self.modes.grapheme_clustering {
                Some(
                    ClusterAnchor {
                        row: b.cursor.row,
                        col: b.cursor.col,
                        after: (put.cursor.row, put.cursor.col),
                    },
                )
            } else {
                self.cluster_anchor
            },
            ..self.with_active(put)
        }
    }

    /// One scalar of `w` columns printed.
    pub open spec fn printed_width(self, c: char, w: int) -> ScreenView {
        if w == 0 {
            self.with_active(self.active().combined(c))
        } else {
            self.room_for(w).placed(c, w)
        }
    }

    /// The cell a continuing scalar would join: the last one printed in, if the cursor is
    /// still where that left it.
    pub open spec fn anchor(self) -> Option<ClusterAnchor> {
        match self.cluster_anchor {
            Some(a) => if a.after == (self.active().cursor.row, self.active().cursor.col) {
                Some(a)
            } else {
                None
            },
            None => None,
        }
    }

    /// The segmentation state a scalar is read in.
    pub open spec fn cluster_state(self) -> BreakState {
        if self.anchor() is Some {
            self.cluster
        } else {
            BreakState::start()
        }
    }

    /// Whether a scalar joins the cluster behind the cursor.
    pub open spec fn joins(self, c: char) -> bool {
        self.modes.grapheme_clustering && self.anchor() is Some && !self.cluster_state().boundary(c)
    }

    /// The screen once the segmentation has read a scalar.
    pub open spec fn classed(self, c: char) -> ScreenView {
        ScreenView {
            cluster: self.cluster_state().after(c),
            cluster_anchor: self.anchor(),
            ..self
        }
    }

    /// The screen once a scalar has joined the cluster at `a`.
    pub open spec fn grown(self, a: ClusterAnchor, c: char) -> ScreenView {
        let b = self.active().cluster_grown(a.row as int, a.col as int, c);
        ScreenView {
            last_printed: Some(c),
            cluster_anchor: Some(
                ClusterAnchor { row: a.row, col: a.col, after: (b.cursor.row, b.cursor.col) },
            ),
            ..self.with_active(b)
        }
    }

    /// One scalar printed.
    #[verifier::opaque]
    pub open spec fn printed(self, c: char) -> ScreenView {
        if !self.modes.grapheme_clustering {
            self.printed_width(c, columns(c) as int)
        } else if self.joins(c) {
            self.classed(c).grown(self.anchor()->0, c)
        } else {
            self.classed(c).printed_width(c, columns(c) as int)
        }
    }

    /// Scalars printed one after the other.
    pub open spec fn printed_all(self, chars: Seq<char>) -> ScreenView
        decreases chars.len(),
    {
        if chars.len() == 0 {
            self
        } else {
            self.printed_all(chars.drop_last()).printed(chars.last())
        }
    }

    /// One scalar printed `n` times.
    pub open spec fn printed_times(self, c: char, n: int) -> ScreenView
        decreases n,
    {
        if n <= 0 {
            self
        } else {
            self.printed_times(c, n - 1).printed(c)
        }
    }

    /// The last printed character printed `n` times more, if there is one.
    pub open spec fn repeated(self, n: int) -> ScreenView {
        match self.last_printed {
            Some(c) => self.printed_times(c, n),
            None => self,
        }
    }

    /// Glyphs written from the cursor on, all on its row.
    pub open spec fn run_put(self, chars: Seq<char>, widths: Seq<u8>) -> ScreenView {
        ScreenView {
            last_printed: Some(chars.last()),
            ..self.with_active(
                self.active().run_put(chars, widths, self.pen, self.modes.autowrap),
            )
        }
    }
}

// ---- the bulk paths agree with printing one by one ----------------------------------------

/// Printing two runs is printing their concatenation.
pub proof fn lemma_printed_all_join(s: ScreenView, a: Seq<char>, b: Seq<char>)
    ensures
        s.printed_all(a).printed_all(b) == s.printed_all(a + b),
    decreases b.len(),
{
    if b.len() == 0 {
        assert(a + b =~= a);
    } else {
        lemma_printed_all_join(s, a, b.drop_last());
        assert((a + b).drop_last() =~= a + b.drop_last());
    }
}

/// Putting a glyph behind a run is putting the longer run.
proof fn lemma_run_grows(
    b: BufferView,
    chars: Seq<char>,
    widths: Seq<u8>,
    c: char,
    w: u8,
    pen: Pen,
    autowrap: bool,
)
    requires
        b.wf(),
        pen.wf(),
        chars.len() == widths.len(),
        chars.len() > 0,
        glyph_widths(widths),
        1 <= w <= 2,
        b.cursor.col + total_width(widths) + w <= b.cols,
    ensures
        b.run_put(chars, widths, pen, autowrap).glyph_put(c, w as int, pen, None, autowrap)
            == b.run_put(chars.push(c), widths.push(w), pen, autowrap),
        !b.run_put(chars, widths, pen, autowrap).cursor.pending_wrap,
        b.run_put(chars, widths, pen, autowrap).cursor.col == b.cursor.col + total_width(widths),
{
    let (row, col) = (b.cursor.row as int, b.cursor.col as int);
    let total = total_width(widths);
    let cells = run_cells(chars, widths, pen);
    let last = glyph(c, w == 2, pen);
    lemma_run_cells(chars, widths, pen);
    lemma_glyph_paired(c, w == 2, pen);
    assert(b.lines[row].wf(b.cols as int));
    lemma_overwrite_join(b.lines[row], b.cols as int, col, cells, last);
    assert(chars.push(c).drop_last() =~= chars);
    assert(widths.push(w).drop_last() =~= widths);
    assert(run_cells(chars.push(c), widths.push(w), pen) == cells + last);
    assert(total_width(widths.push(w)) == total + w);
    let r = b.run_put(chars, widths, pen, autowrap);
    assert(r.lines[row] == b.lines[row].overwrite(col, cells));
    let put = r.glyph_put(c, w as int, pen, None, autowrap);
    assert(put.lines =~= b.lines.update(row, b.lines[row].overwrite(col, cells + last)));
    assert(put =~= b.run_put(chars.push(c), widths.push(w), pen, autowrap));
}

/// A glyph that fits the rest of the cursor's row, printed.
proof fn lemma_one_printed(s: ScreenView, c: char, w: u8)
    requires
        !s.modes.insert_mode,
        !s.modes.grapheme_clustering,
        s.unparked().modes == s.modes,
        columns(c) == w,
        1 <= w <= 2,
        s.unparked().active().cursor.col + w <= s.unparked().active().cols,
    ensures
        s.printed(c) == (ScreenView {
            last_printed: Some(c),
            ..s.unparked().with_active(
                s.unparked().active().glyph_put(
                    c,
                    w as int,
                    s.unparked().pen,
                    None,
                    s.modes.autowrap,
                ),
            )
        }),
{
    reveal(ScreenView::printed);
    assert(s.room_for(w as int) == s.unparked());
}

/// A run of one glyph.
proof fn lemma_run_of_one(b: BufferView, c: char, w: u8, pen: Pen, autowrap: bool)
    requires
        1 <= w <= 2,
        b.cursor.col + w <= b.cols,
    ensures
        b.glyph_put(c, w as int, pen, None, autowrap) == b.run_put(
            seq![c],
            seq![w],
            pen,
            autowrap,
        ),
{
    let chars = seq![c];
    let widths = seq![w];
    assert(total_width(widths.drop_last()) == 0);
    assert(total_width(widths) == w);
    assert(run_cells(chars.drop_last(), widths.drop_last(), pen) =~= Seq::empty());
    assert(run_cells(chars, widths, pen) =~= glyph(c, w == 2, pen));
    assert(b.glyph_put(c, w as int, pen, None, autowrap) =~= b.run_put(
        chars,
        widths,
        pen,
        autowrap,
    ));
}

/// One glyph more behind a run.
proof fn lemma_run_step(t: ScreenView, chars: Seq<char>, widths: Seq<u8>, c: char, w: u8)
    requires
        t.active().wf(),
        t.pen.wf(),
        !t.modes.insert_mode,
        !t.modes.grapheme_clustering,
        chars.len() == widths.len(),
        chars.len() > 0,
        glyph_widths(widths),
        columns(c) == w,
        1 <= w <= 2,
        t.active().cursor.col + total_width(widths) + w <= t.active().cols,
    ensures
        t.run_put(chars, widths).printed(c) == t.run_put(chars.push(c), widths.push(w)),
{
    let b = t.active();
    let u = t.run_put(chars, widths);
    lemma_run_grows(b, chars, widths, c, w, t.pen, t.modes.autowrap);
    assert(u.active() == b.run_put(chars, widths, t.pen, t.modes.autowrap));
    assert(u.unparked() == u);
    lemma_one_printed(u, c, w);
    assert(chars.push(c).last() == c);
}

/// A run of glyphs that fits the rest of the cursor's row, written at once, is those glyphs
/// printed one by one.
pub proof fn lemma_run_is_printing(s: ScreenView, chars: Seq<char>, widths: Seq<u8>)
    requires
        s.unparked().wf(),
        !s.modes.insert_mode,
        !s.modes.grapheme_clustering,
        s.unparked().modes == s.modes,
        !s.unparked().active().cursor.pending_wrap,
        chars.len() == widths.len(),
        chars.len() > 0,
        glyph_widths(widths),
        forall|i: int| 0 <= i < chars.len() ==> columns(#[trigger] chars[i]) == widths[i],
        s.unparked().active().cursor.col + total_width(widths) <= s.unparked().active().cols,
    ensures
        s.printed_all(chars) == s.unparked().run_put(chars, widths),
    decreases chars.len(),
{
    let t = s.unparked();
    let b = t.active();
    let c = chars.last();
    let w = widths.last();
    let head = chars.drop_last();
    let head_widths = widths.drop_last();
    assert(columns(chars[chars.len() - 1]) == w);
    assert(1 <= widths[widths.len() - 1] <= 2);
    assert forall|i: int| 0 <= i < head_widths.len() implies 1 <= #[trigger] head_widths[i]
        <= 2 by {
        assert(head_widths[i] == widths[i]);
    }
    if chars.len() == 1 {
        assert(s.printed_all(head) == s);
        assert(total_width(head_widths) == 0);
        lemma_one_printed(s, c, w);
        lemma_run_of_one(b, c, w, t.pen, t.modes.autowrap);
        assert(chars =~= seq![c]);
        assert(widths =~= seq![w]);
    } else {
        assert forall|i: int| 0 <= i < head.len() implies columns(#[trigger] head[i])
            == head_widths[i] by {
            assert(head[i] == chars[i]);
        }
        assert(total_width(widths) == total_width(head_widths) + w);
        lemma_run_is_printing(s, head, head_widths);
        lemma_run_step(t, head, head_widths, c, w);
        assert(head.push(c) =~= chars);
        assert(head_widths.push(w) =~= widths);
    }
}

/// Narrow glyphs take a column each, and their cells are the pen's.
proof fn lemma_narrow_run(chars: Seq<char>, widths: Seq<u8>, pen: Pen)
    requires
        chars.len() == widths.len(),
        forall|i: int| 0 <= i < widths.len() ==> #[trigger] widths[i] == 1,
    ensures
        total_width(widths) == chars.len(),
        run_cells(chars, widths, pen) == Seq::new(chars.len(), |i: int| pen.cell(chars[i])),
    decreases chars.len(),
{
    if chars.len() > 0 {
        lemma_narrow_run(chars.drop_last(), widths.drop_last(), pen);
    }
    assert(run_cells(chars, widths, pen) =~= Seq::new(chars.len(), |i: int| pen.cell(chars[i])));
}

/// The same for bytes, each read as the character it stands for.
proof fn lemma_ascii_run(s: ScreenView, bytes: Seq<u8>)
    requires
        s.unparked().wf(),
        !s.modes.insert_mode,
        !s.modes.grapheme_clustering,
        s.unparked().modes == s.modes,
        !s.unparked().active().cursor.pending_wrap,
        bytes.len() > 0,
        s.unparked().active().cursor.col + bytes.len() <= s.unparked().active().cols,
    ensures
        ({
            let t = s.unparked();
            let b = t.active();
            let (row, col) = (b.cursor.row as int, b.cursor.col as int);
            s.printed_all(bytes_text(bytes)) == (ScreenView {
                last_printed: Some(bytes.last() as char),
                ..t.with_active(
                    b.overwrite(
                        row,
                        col,
                        Seq::new(bytes.len(), |i: int| t.pen.cell(bytes[i] as char)),
                    ).advanced(col + bytes.len(), t.modes.autowrap),
                )
            })
        }),
{
    let t = s.unparked();
    let chars = bytes_text(bytes);
    let widths = Seq::new(bytes.len(), |i: int| 1u8);
    assert forall|i: int| 0 <= i < chars.len() implies columns(#[trigger] chars[i])
        == widths[i] by {
        lemma_byte_columns(bytes[i]);
    }
    lemma_narrow_run(chars, widths, t.pen);
    assert(glyph_widths(widths));
    lemma_run_is_printing(s, chars, widths);
    assert(Seq::new(chars.len(), |i: int| t.pen.cell(chars[i])) =~= Seq::new(
        bytes.len(),
        |i: int| t.pen.cell(bytes[i] as char),
    ));
}

// ---- the operations -----------------------------------------------------------------------

impl Buffer {
    /// Put a glyph down at the cursor.
    fn put_glyph(&mut self, c: char, w: usize, pen: Pen, shift: Option<Cell>, autowrap: bool)
        requires
            old(self)@.wf(),
            pen.wf(),
            1 <= w <= 2,
            shift matches Some(blank) ==> narrow_cell(blank),
        ensures
            final(self)@ == old(self)@.glyph_put(c, w as int, pen, shift, autowrap),
            final(self)@.wf(),
    {
        let (row, col) = (self.cursor.row, self.cursor.col);
        if let Some(blank) = shift {
            self.insert_blanks(row, col, w, blank);
        }
        let fits_wide: bool = w == 2 && col + 1 < self.cols;
        self.write_glyph(row, col, c, fits_wide, pen);
        self.advance_cursor(col + w, autowrap);
    }

    /// Attach a combining mark.
    fn combine(&mut self, mark: char)
        requires
            old(self)@.wf(),
        ensures
            final(self)@ == old(self)@.combined(mark),
            final(self)@.wf(),
    {
        let ghost view = self@;
        let row: usize = self.cursor.row;
        let mut col: usize = if self.cursor.pending_wrap {
            self.cols - 1
        } else if self.cursor.col > 0 {
            self.cursor.col - 1
        } else {
            return;
        };
        assert(view.lines[row as int].wf(view.cols as int));
        if self.cell(row, col).is_wide_spacer() && col > 0 {
            col = col - 1;
        }
        row_mut(&mut self.lines, row).add_mark(col, mark);
        assert(self@.lines =~= view.lines.update(
            row as int,
            view.lines[row as int].marked(col as int, mark),
        ));
        proof {
            lemma_marked_wf(view, row as int, col as int, mark);
        }
    }

    /// The text of the cluster in a cell.
    fn cluster_text(&self, row: usize, col: usize) -> (r: Vec<char>)
        requires
            self@.wf(),
            row < self@.rows,
            col < self@.cols,
        ensures
            r@ == self@.cluster_text(row as int, col as int),
    {
        assert(self@.lines[row as int].wf(self@.cols as int));
        let mut out: Vec<char> = Vec::new();
        out.push(self.cell(row, col).rune);
        let mut marks = self.lines[row].marks(col);
        out.append(&mut marks);
        assert(out@ =~= self@.cluster_text(row as int, col as int));
        out
    }

    /// Add a scalar to the cluster in a cell, widening it if it has grown to two columns.
    fn grow_cluster(&mut self, row: usize, col: usize, c: char)
        requires
            old(self)@.wf(),
            row == old(self)@.cursor.row,
            col < old(self)@.cols,
        ensures
            final(self)@ == old(self)@.cluster_grown(row as int, col as int, c),
            final(self)@.wf(),
    {
        let ghost view = self@;
        assert(view.lines[row as int].wf(view.cols as int));
        let was = self.cluster_text(row, col);
        let before = cluster_width(&was);
        let cell = self.cell(row, col);
        row_mut(&mut self.lines, row).add_mark(col, c);
        let ghost marked = view.with_line(
            row as int,
            view.lines[row as int].marked(col as int, c),
        );
        assert(self@.lines =~= marked.lines);
        assert(self@ == marked);
        proof {
            lemma_marked_wf(view, row as int, col as int, c);
        }
        let now = self.cluster_text(row, col);
        let after = cluster_width(&now);
        if before < 2 && after == 2 && col + 1 < self.cols && !cell.is_wide_leader()
            && !cell.is_wide_spacer() {
            proof {
                assert(marked.lines[row as int].wf(view.cols as int));
                lemma_widened_wf(marked.lines[row as int], view.cols as int, col as int);
            }
            row_mut(&mut self.lines, row).widen(col);
            assert(self@.lines =~= marked.lines.update(
                row as int,
                marked.lines[row as int].widened(col as int),
            ));
            self.cursor.col = if col + 2 < self.cols {
                col + 2
            } else {
                self.cols - 1
            };
            self.cursor.pending_wrap = col + 2 >= self.cols;
            proof {
                assert forall|i: int| 0 <= i < self@.lines.len() implies (
                #[trigger] self@.lines[i]).wf(view.cols as int) by {
                    if i != row {
                        assert(self@.lines[i] == view.lines[i]);
                    }
                }
            }
        }
    }

    /// Link the cursor's row to the next one.
    fn link_row(&mut self)
        requires
            old(self)@.wf(),
        ensures
            final(self)@ == old(self)@.with_line(
                old(self)@.cursor.row as int,
                RowView { wrapped: true, ..old(self)@.lines[old(self)@.cursor.row as int] },
            ),
            final(self)@.wf(),
    {
        let ghost view = self@;
        let row: usize = self.cursor.row;
        assert(view.lines[row as int].wf(view.cols as int));
        row_mut(&mut self.lines, row).wrapped = true;
        assert(self@.lines =~= view.lines.update(
            row as int,
            RowView { wrapped: true, ..view.lines[row as int] },
        ));
        assert forall|i: int| 0 <= i < self@.lines.len() implies (#[trigger] self@.lines[i]).wf(
            view.cols as int,
        ) by {
            if i != row {
                assert(self@.lines[i] == view.lines[i]);
            }
        }
    }
}

/// A mark on a cell that is there keeps the buffer whole.
proof fn lemma_marked_wf(b: BufferView, row: int, col: int, mark: char)
    requires
        b.wf(),
        0 <= row < b.rows,
        0 <= col < b.cols,
    ensures
        b.with_line(row, b.lines[row].marked(col, mark)).wf(),
{
    let t = b.with_line(row, b.lines[row].marked(col, mark));
    assert(b.lines[row].wf(b.cols as int));
    assert forall|i: int| 0 <= i < t.lines.len() implies (#[trigger] t.lines[i]).wf(
        b.cols as int,
    ) by {
        if i != row {
            assert(t.lines[i] == b.lines[i]);
        }
    }
}

impl Screen {
    /// The soft wrap: link the row being left to the next one, then move to the start of
    /// that next line, scrolling if at the bottom of the region.
    fn wrap_line(&mut self)
        requires
            old(self).wf(),
        ensures
            final(self)@ == old(self)@.wrapped_line(),
            final(self).wf(),
            final(self)@.modes == old(self)@.modes,
            final(self)@.active().cols == old(self)@.active().cols,
            !final(self)@.active().cursor.pending_wrap,
            final(self)@.active().cursor.col == 0,
    {
        reveal(ScreenView::wrapped_line);
        let b = self.active_mut();
        b.link_row();
        self.line_feed();
        self.carriage_return();
    }

    /// Make room for a glyph of `w` columns.
    fn make_room(&mut self, w: usize)
        requires
            old(self).wf(),
        ensures
            final(self)@ == old(self)@.room_for(w as int),
            final(self).wf(),
            final(self)@.modes == old(self)@.modes,
    {
        // A prior glyph filled the last column: perform the wrap it deferred.
        if self.active().cursor.pending_wrap {
            self.wrap_line();
        }
        let b = self.active();
        // A wide glyph with a single column left cannot fit.
        if w == 2 && b.cursor.col + 1 >= b.cols {
            if self.modes.autowrap {
                self.wrap_line();
            } else {
                let b = self.active_mut();
                b.cursor.col = b.cols.saturating_sub(2);
            }
        }
    }

    /// Put a glyph down at the cursor.
    fn place(&mut self, c: char, w: usize)
        requires
            old(self).wf(),
            1 <= w <= 2,
        ensures
            final(self)@ == old(self)@.placed(c, w as int),
            final(self).wf(),
    {
        let (pen, autowrap) = (self.pen, self.modes.autowrap);
        let shift: Option<Cell> = if self.modes.insert_mode {
            Some(self.blank_cell())
        } else {
            None
        };
        let (row, col) = self.cursor();
        let b = self.active_mut();
        b.put_glyph(c, w, pen, shift, autowrap);
        self.last_printed = Some(c);
        if self.modes.grapheme_clustering {
            let after = self.cursor();
            self.cluster_anchor = Some(ClusterAnchor { row, col, after });
        }
    }

    /// Place one scalar whose width is already known.
    fn print_width(&mut self, c: char, w: usize)
        requires
            old(self).wf(),
            w <= 2,
        ensures
            final(self)@ == old(self)@.printed_width(c, w as int),
            final(self).wf(),
            final(self)@.modes == old(self)@.modes,
    {
        if w == 0 {
            let b = self.active_mut();
            b.combine(c);
            return;
        }
        self.make_room(w);
        self.place(c, w);
    }

    /// Try to join `c` onto the grapheme cluster already in the cell behind the cursor, and
    /// say whether it did. There is no lookahead: a cluster is never held back waiting to
    /// see whether it is finished.
    fn extend_cluster(&mut self, c: char) -> (joined: bool)
        requires
            old(self).wf(),
            old(self)@.modes.grapheme_clustering,
        ensures
            joined == old(self)@.joins(c),
            joined ==> final(self)@ == old(self)@.classed(c).grown(old(self)@.anchor()->0, c),
            !joined ==> final(self)@ == old(self)@.classed(c),
            final(self).wf(),
    {
        let (row, col) = self.cursor();
        let anchor: Option<ClusterAnchor> = match self.cluster_anchor {
            Some(a) => if a.after.0 == row && a.after.1 == col {
                Some(a)
            } else {
                None
            },
            None => None,
        };
        if anchor.is_none() {
            // The cursor moved, or there is nothing to continue: a fresh cluster starts.
            self.cluster.reset();
            self.cluster_anchor = None;
        }
        let joins = !self.cluster.breaks_before(c);
        assert(self@ == old(self)@.classed(c));
        match anchor {
            Some(a) => {
                if !joins {
                    return false;
                }
                let b = self.active_mut();
                b.grow_cluster(a.row, a.col, c);
                let after = self.cursor();
                self.cluster_anchor = Some(ClusterAnchor { row: a.row, col: a.col, after });
                self.last_printed = Some(c);
                true
            },
            None => false,
        }
    }

    /// Print one scalar: a grapheme cluster under construction takes it first, a zero-width
    /// mark composes onto the cell behind the cursor, and anything else is placed.
    pub fn print(&mut self, c: char)
        requires
            old(self).wf(),
        ensures
            final(self)@ == old(self)@.printed(c),
            final(self).wf(),
    {
        reveal(ScreenView::printed);
        if self.modes.grapheme_clustering {
            if self.extend_cluster(c) {
                return;
            }
        }
        let w: u8 = width(c);
        proof {
            lemma_columns(c);
        }
        self.print_width(c, w as usize);
    }

    /// REP: print the last character again, `n` times. It repeats the last printed character
    /// and nothing else; after a control there is nothing to repeat.
    pub fn repeat_last(&mut self, n: usize)
        requires
            old(self).wf(),
        ensures
            final(self)@ == old(self)@.repeated(n as int),
            final(self).wf(),
    {
        let ghost start = self@;
        if let Some(c) = self.last_printed {
            let mut i: usize = 0;
            while i < n
                invariant
                    i <= n,
                    self.wf(),
                    self@ == start.printed_times(c, i as int),
                decreases n - i,
            {
                self.print(c);
                i = i + 1;
            }
        }
    }

    /// Perform a deferred wrap.
    fn unpark(&mut self)
        requires
            old(self).wf(),
        ensures
            final(self)@ == old(self)@.unparked(),
            final(self).wf(),
            final(self)@.modes == old(self)@.modes,
            final(self)@.active().cols == old(self)@.active().cols,
            !final(self)@.active().cursor.pending_wrap,
            old(self)@.active().cursor.pending_wrap ==> final(self)@.active().cursor.col == 0,
    {
        if self.active().cursor.pending_wrap {
            self.wrap_line();
        }
    }

    /// Write a run of bytes, each a glyph of its own, onto the rest of the cursor's row.
    fn fill_ascii(&mut self, run: &[u8])
        requires
            old(self).wf(),
            old(self)@.unparked() == old(self)@,
            !old(self)@.active().cursor.pending_wrap,
            !old(self)@.modes.insert_mode,
            !old(self)@.modes.grapheme_clustering,
            run@.len() > 0,
            old(self)@.active().cursor.col + run@.len() <= old(self)@.active().cols,
        ensures
            final(self)@ == old(self)@.printed_all(bytes_text(run@)),
            final(self).wf(),
            final(self)@.modes == old(self)@.modes,
            final(self)@.active().cols == old(self)@.active().cols,
    {
        proof {
            lemma_ascii_run(self@, run@);
        }
        let (pen, autowrap) = (self.pen, self.modes.autowrap);
        let b = self.active_mut();
        let (row, col) = (b.cursor.row, b.cursor.col);
        b.fill_ascii_run(row, col, run, pen);
        b.advance_cursor(col + run.len(), autowrap);
        self.last_printed = Some(run[run.len() - 1] as char);
    }

    /// Bulk-write a run of ASCII at the cursor: a screenful of plain text becomes a few row
    /// fills instead of thousands of single prints, and comes out the same.
    pub(crate) fn print_ascii_run(&mut self, bytes: &[u8])
        requires
            old(self).wf(),
            !old(self)@.modes.insert_mode,
            !old(self)@.modes.grapheme_clustering,
        ensures
            final(self)@ == old(self)@.printed_all(bytes_text(bytes@)),
            final(self).wf(),
            final(self)@.modes == old(self)@.modes,
    {
        let ghost start = self@;
        let ghost text = bytes_text(bytes@);
        let mut at: usize = 0;
        while at < bytes.len()
            invariant
                at <= bytes@.len(),
                text == bytes_text(bytes@),
                self.wf(),
                self@.modes == start.modes,
                !start.modes.insert_mode,
                !start.modes.grapheme_clustering,
                self@ == start.printed_all(text.take(at as int)),
            decreases bytes.len() - at,
        {
            let ghost before = self@;
            // Take any deferred wrap the previous cell left before placing more.
            self.unpark();
            let b = self.active();
            // Fill to the end of the row, or until the run ends.
            let room: usize = b.cols - b.cursor.col;
            let left: usize = bytes.len() - at;
            let take: usize = if room < left {
                room
            } else {
                left
            };
            let run = vstd::slice::slice_subrange(bytes, at, at + take);
            self.fill_ascii(run);
            proof {
                lemma_unparked_run(before, run@);
                lemma_printed_all_join(start, text.take(at as int), bytes_text(run@));
                assert(text.take(at as int) + bytes_text(run@) =~= text.take(at + take));
            }
            at = at + take;
        }
        assert(text.take(at as int) =~= text);
    }

    /// Write glyphs of known widths onto the rest of the cursor's row.
    fn fill_text(&mut self, chars: &[char], widths: &[u8], total: usize)
        requires
            old(self).wf(),
            old(self)@.unparked() == old(self)@,
            !old(self)@.active().cursor.pending_wrap,
            !old(self)@.modes.insert_mode,
            !old(self)@.modes.grapheme_clustering,
            chars@.len() > 0,
            chars@.len() == widths@.len(),
            glyph_widths(widths@),
            forall|i: int| 0 <= i < chars@.len() ==> columns(#[trigger] chars@[i]) == widths@[i],
            total == total_width(widths@),
            old(self)@.active().cursor.col + total <= old(self)@.active().cols,
        ensures
            final(self)@ == old(self)@.printed_all(chars@),
            final(self).wf(),
            final(self)@.modes == old(self)@.modes,
            final(self)@.active().cols == old(self)@.active().cols,
    {
        proof {
            lemma_run_is_printing(self@, chars@, widths@);
        }
        let (pen, autowrap) = (self.pen, self.modes.autowrap);
        let b = self.active_mut();
        let (row, col) = (b.cursor.row, b.cursor.col);
        b.fill_text_run(row, col, chars, widths, pen);
        b.advance_cursor(col + total, autowrap);
        self.last_printed = Some(chars[chars.len() - 1]);
    }

    /// Print a run whose widths are known, writing maximal stretches of glyphs a row at a
    /// time. Marks, and a wide glyph with one column left, go one by one.
    fn print_classified_run(&mut self, chars: &[char], widths: &Vec<u8>)
        requires
            old(self).wf(),
            !old(self)@.modes.insert_mode,
            !old(self)@.modes.grapheme_clustering,
            chars@.len() == widths@.len(),
            forall|i: int| 0 <= i < chars@.len() ==> columns(#[trigger] chars@[i]) == widths@[i],
        ensures
            final(self)@ == old(self)@.printed_all(chars@),
            final(self).wf(),
            final(self)@.modes == old(self)@.modes,
    {
        let ghost start = self@;
        let mut at: usize = 0;
        assert(chars@.take(0) =~= Seq::empty());
        while at < chars.len()
            invariant
                at <= chars@.len(),
                chars@.len() == widths@.len(),
                forall|i: int|
                    0 <= i < chars@.len() ==> columns(#[trigger] chars@[i]) == widths@[i],
                self.wf(),
                self@.modes == start.modes,
                !start.modes.insert_mode,
                !start.modes.grapheme_clustering,
                self@ == start.printed_all(chars@.take(at as int)),
            decreases chars.len() - at,
        {
            let ghost before = self@;
            let c = chars[at];
            assert(columns(chars@[at as int]) == widths@[at as int]);
            let cells: usize = self.columns_left();
            let (end, total) = stretch(chars, widths, at, cells);
            if end == at {
                self.print_known(c, widths[at] as usize);
                proof {
                    lemma_printed_next(start, chars@, at as int);
                }
                at = at + 1;
            } else {
                self.unpark();
                let segment = vstd::slice::slice_subrange(chars, at, end);
                let segment_widths = vstd::slice::slice_subrange(widths.as_slice(), at, end);
                assert forall|i: int| 0 <= i < segment@.len() implies columns(
                    #[trigger] segment@[i],
                ) == segment_widths@[i] by {
                    assert(segment@[i] == chars@[at + i]);
                }
                self.fill_text(segment, segment_widths, total);
                proof {
                    lemma_unparked_text(before, segment@, segment_widths@);
                    lemma_printed_all_join(start, chars@.take(at as int), segment@);
                    assert(chars@.take(at as int) + segment@ =~= chars@.take(end as int));
                }
                at = end;
            }
        }
        assert(chars@.take(at as int) =~= chars@);
    }

    /// The columns left on the row the next glyph goes to.
    fn columns_left(&self) -> (n: usize)
        requires
            self.wf(),
        ensures
            n == (if self@.active().cursor.pending_wrap {
                self@.active().cols as int
            } else {
                self@.active().cols - self@.active().cursor.col
            }),
    {
        let b = self.active();
        if b.cursor.pending_wrap {
            b.cols
        } else {
            b.cols - b.cursor.col
        }
    }

    /// Print one scalar outside insert mode and clustering, its width known.
    fn print_known(&mut self, c: char, w: usize)
        requires
            old(self).wf(),
            !old(self)@.modes.grapheme_clustering,
            w == columns(c),
        ensures
            final(self)@ == old(self)@.printed(c),
            final(self).wf(),
            final(self)@.modes == old(self)@.modes,
    {
        proof {
            lemma_columns(c);
            reveal(ScreenView::printed);
        }
        self.print_width(c, w);
    }

    /// A run dominated by marks, one by one: collecting stretches of glyphs would only add a
    /// second scan.
    fn print_scalar_partitioned_run(&mut self, chars: &[char])
        requires
            old(self).wf(),
            !old(self)@.modes.insert_mode,
            !old(self)@.modes.grapheme_clustering,
        ensures
            final(self)@ == old(self)@.printed_all(chars@),
            final(self).wf(),
            final(self)@.modes == old(self)@.modes,
    {
        let ghost start = self@;
        let mut i: usize = 0;
        assert(chars@.take(0) =~= Seq::empty());
        while i < chars.len()
            invariant
                i <= chars@.len(),
                self.wf(),
                self@.modes == start.modes,
                !start.modes.insert_mode,
                !start.modes.grapheme_clustering,
                self@ == start.printed_all(chars@.take(i as int)),
            decreases chars.len() - i,
        {
            let c = chars[i];
            let w: u8 = width(c);
            self.print_known(c, w as usize);
            proof {
                lemma_printed_next(start, chars@, i as int);
            }
            i = i + 1;
        }
        assert(chars@.take(i as int) =~= chars@);
    }

    /// Print already-decoded text in bounded pieces, classifying every scalar once. The size
    /// of a piece is only a work quantum: it does not change what is printed.
    pub(crate) fn print_text_run(&mut self, chars: &[char])
        requires
            old(self).wf(),
            !old(self)@.modes.insert_mode,
            !old(self)@.modes.grapheme_clustering,
        ensures
            final(self)@ == old(self)@.printed_all(chars@),
            final(self).wf(),
            final(self)@.modes == old(self)@.modes,
    {
        let ghost start = self@;
        let mut at: usize = 0;
        assert(chars@.take(0) =~= Seq::empty());
        while at < chars.len()
            invariant
                at <= chars@.len(),
                self.wf(),
                self@.modes == start.modes,
                !start.modes.insert_mode,
                !start.modes.grapheme_clustering,
                self@ == start.printed_all(chars@.take(at as int)),
            decreases chars.len() - at,
        {
            let end: usize = if chars.len() - at < BATCH {
                chars.len()
            } else {
                at + BATCH
            };
            let chunk = vstd::slice::slice_subrange(chars, at, end);
            if width(chunk[0]) == 0 {
                self.print_scalar_partitioned_run(chunk);
            } else {
                let (widths, zero_width) = classify_widths(chunk);
                if zero_width >= chunk.len() - zero_width {
                    self.print_scalar_partitioned_run(chunk);
                } else {
                    self.print_classified_run(chunk, &widths);
                }
            }
            proof {
                lemma_printed_all_join(start, chars@.take(at as int), chunk@);
                assert(chars@.take(at as int) + chunk@ =~= chars@.take(end as int));
            }
            at = end;
        }
        assert(chars@.take(at as int) =~= chars@);
    }
}

/// The width of every scalar, and how many have none.
fn classify_widths(chars: &[char]) -> (r: (Vec<u8>, usize))
    ensures
        r.0@.len() == chars@.len(),
        forall|i: int| 0 <= i < chars@.len() ==> columns(#[trigger] chars@[i]) == r.0@[i],
        r.1 <= chars@.len(),
{
    let mut widths: Vec<u8> = Vec::new();
    let mut none: usize = 0;
    let mut i: usize = 0;
    while i < chars.len()
        invariant
            i <= chars@.len(),
            widths@.len() == i,
            none <= i,
            forall|j: int| 0 <= j < i ==> columns(#[trigger] chars@[j]) == widths@[j],
        decreases chars.len() - i,
    {
        let w: u8 = width(chars[i]);
        if w == 0 {
            none = none + 1;
        }
        widths.push(w);
        i = i + 1;
    }
    (widths, none)
}

/// How far glyphs from `at` on fit `room` columns, and the columns they take. Stops at a
/// mark.
fn stretch(chars: &[char], widths: &Vec<u8>, at: usize, room: usize) -> (r: (usize, usize))
    requires
        at < chars@.len(),
        chars@.len() == widths@.len(),
        forall|i: int| 0 <= i < chars@.len() ==> columns(#[trigger] chars@[i]) == widths@[i],
    ensures
        at <= r.0 <= chars@.len(),
        r.1 == total_width(widths@.subrange(at as int, r.0 as int)),
        r.1 <= room,
        glyph_widths(widths@.subrange(at as int, r.0 as int)),
{
    let mut end: usize = at;
    let mut total: usize = 0;
    assert(widths@.subrange(at as int, at as int) =~= Seq::empty());
    while end < widths.len() && widths[end] != 0 && widths[end] as usize <= room - total
        invariant
            at <= end <= chars@.len(),
            chars@.len() == widths@.len(),
            forall|i: int| 0 <= i < chars@.len() ==> columns(#[trigger] chars@[i]) == widths@[i],
            total == total_width(widths@.subrange(at as int, end as int)),
            total <= room,
            glyph_widths(widths@.subrange(at as int, end as int)),
        decreases widths.len() - end,
    {
        proof {
            lemma_columns(chars@[end as int]);
            let s = widths@.subrange(at as int, end + 1);
            assert(s.drop_last() =~= widths@.subrange(at as int, end as int));
            assert forall|i: int| 0 <= i < s.len() implies 1 <= #[trigger] s[i] <= 2 by {
                if i < s.len() - 1 {
                    assert(s[i] == widths@.subrange(at as int, end as int)[i]);
                }
            }
        }
        total = total + widths[end] as usize;
        end = end + 1;
    }
    (end, total)
}

/// One more of a run printed.
proof fn lemma_printed_next(s: ScreenView, chars: Seq<char>, i: int)
    requires
        0 <= i < chars.len(),
    ensures
        s.printed_all(chars.take(i + 1)) == s.printed_all(chars.take(i)).printed(chars[i]),
{
    assert(chars.take(i + 1).drop_last() =~= chars.take(i));
}

/// A run that starts with a deferred wrap performs it first.
proof fn lemma_unparked_run(s: ScreenView, bytes: Seq<u8>)
    requires
        s.unparked().wf(),
        !s.modes.insert_mode,
        !s.modes.grapheme_clustering,
        s.unparked().modes == s.modes,
        !s.unparked().active().cursor.pending_wrap,
        bytes.len() > 0,
        s.unparked().active().cursor.col + bytes.len() <= s.unparked().active().cols,
    ensures
        s.printed_all(bytes_text(bytes)) == s.unparked().printed_all(bytes_text(bytes)),
{
    assert(s.unparked().unparked() == s.unparked());
    lemma_ascii_run(s, bytes);
    lemma_ascii_run(s.unparked(), bytes);
}

proof fn lemma_unparked_text(s: ScreenView, chars: Seq<char>, widths: Seq<u8>)
    requires
        s.unparked().wf(),
        !s.modes.insert_mode,
        !s.modes.grapheme_clustering,
        s.unparked().modes == s.modes,
        !s.unparked().active().cursor.pending_wrap,
        chars.len() == widths.len(),
        chars.len() > 0,
        glyph_widths(widths),
        forall|i: int| 0 <= i < chars.len() ==> columns(#[trigger] chars[i]) == widths[i],
        s.unparked().active().cursor.col + total_width(widths) <= s.unparked().active().cols,
    ensures
        s.printed_all(chars) == s.unparked().printed_all(chars),
{
    assert(s.unparked().unparked() == s.unparked());
    lemma_run_is_printing(s, chars, widths);
    lemma_run_is_printing(s.unparked(), chars, widths);
}

} // verus!
