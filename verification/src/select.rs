//! Reading text off the screen: selections, words, logical lines, hyperlinks under the
//! pointer.
use vstd::prelude::*;
use crate::buffer::least;
use crate::cell::LinkId;
use crate::codec::{is_space, space_char, text_chars};
use crate::ids::AbsRow;
use crate::link::{find_at, url_at};
use crate::links::url_of;
use crate::screen::{Screen, ScreenView};
use crate::viewport::row_marks;

verus! {

/// Whether a rune bounds a double-click word: white space, or one of the brackets and quotes
/// that fence a token.
pub open spec fn word_boundary(c: char) -> bool {
    space_char(c) || c == '{' || c == '}' || c == '[' || c == ']' || c == '(' || c == ')' || c == '"'
        || c == '\'' || c == '`'
}

/// Whether a rune bounds a double-click word.
pub fn is_word_boundary(c: char) -> (r: bool)
    ensures
        r == word_boundary(c),
{
    is_space(c) || c == '{' || c == '}' || c == '[' || c == ']' || c == '(' || c == ')' || c == '"'
        || c == '\'' || c == '`'
}

/// A text without the spaces at its end.
pub open spec fn unpadded(s: Seq<char>) -> Seq<char>
    decreases s.len(),
{
    if s.len() > 0 && s.last() == ' ' {
        unpadded(s.drop_last())
    } else {
        s
    }
}

/// Drop the spaces at the end of a text.
fn drop_padding(text: &mut String)
    ensures
        final(text)@ == unpadded(old(text)@),
{
    let chars = text_chars(text.as_str());
    let ghost full = text@;
    let mut n: usize = chars.len();
    assert(full.take(n as int) =~= full);
    while n > 0 && chars[n - 1] == ' '
        invariant
            n <= full.len(),
            chars@ == full,
            text@ == full.take(n as int),
            unpadded(full) == unpadded(text@),
        decreases n,
    {
        assert(text@.drop_last() =~= full.take(n - 1));
        text.pop();
        n = n - 1;
    }
}

/// `(row, col)` in reading order.
pub open spec fn reads_before(a: (AbsRow, usize), b: (AbsRow, usize)) -> bool {
    a.0.0 < b.0.0 || (a.0.0 == b.0.0 && a.1 <= b.1)
}

/// A piece of a line on screen, cell to cell, inclusive.
pub type Span = ((usize, usize), (usize, usize));

/// The line a hyperlink probe reads, and where each of its runes came from.
#[verifier::ext_equal]
pub struct ProbeView {
    pub text: Seq<char>,
    /// The position of each rune in `text`, and the cell that shows it, in order.
    pub runes: Seq<(int, (int, int))>,
}

/// The reusable working set of a hyperlink probe: the logical line being scanned, the map
/// back from its characters to the cells they came from, and the URL the last hit found.
pub struct LinkProbe {
    pub text: Vec<char>,
    pub runes: Vec<(usize, (usize, usize))>,
    pub url: String,
}

/// Where runes came from, as values.
pub open spec fn runes_view(runes: Seq<(usize, (usize, usize))>) -> Seq<(int, (int, int))> {
    runes.map_values(
        |r: (usize, (usize, usize))| (r.0 as int, (r.1.0 as int, r.1.1 as int)),
    )
}

/// The cell whose rune covers position `at`: the last rune that starts at or before it.
pub open spec fn covering(runes: Seq<(int, (int, int))>, at: int) -> Option<(int, int)>
    decreases runes.len(),
{
    if runes.len() == 0 {
        None
    } else if runes.last().0 <= at {
        Some(runes.last().1)
    } else {
        covering(runes.drop_last(), at)
    }
}

/// The position of the rune that a cell shows.
pub open spec fn rune_of(runes: Seq<(int, (int, int))>, cell: (int, int)) -> Option<int>
    decreases runes.len(),
{
    if runes.len() == 0 {
        None
    } else if runes.last().1 == cell {
        Some(runes.last().0)
    } else {
        rune_of(runes.drop_last(), cell)
    }
}

impl LinkProbe {
    /// An empty probe.
    pub fn new() -> (p: LinkProbe)
        ensures
            p.url@ == Seq::<char>::empty(),
            p.text@.len() == 0,
            p.runes@.len() == 0,
    {
        let p = LinkProbe { text: Vec::new(), runes: Vec::new(), url: String::new() };
        assert(p.url@ =~= Seq::<char>::empty());
        p
    }

    /// The URL the last hit found; empty after a miss.
    pub fn url(&self) -> (r: &str)
        ensures
            r@ == self.url@,
    {
        self.url.as_str()
    }

    spec fn lines(&self) -> ProbeView {
        ProbeView { text: self.text@, runes: runes_view(self.runes@) }
    }

    /// The cell whose rune covers position `at`.
    fn cell_at(&self, at: usize) -> (r: Option<(usize, usize)>)
        ensures
            r is Some <==> covering(runes_view(self.runes@), at as int) is Some,
            r matches Some(c) ==> covering(runes_view(self.runes@), at as int) == Some(
                (c.0 as int, c.1 as int),
            ),
    {
        let ghost all = runes_view(self.runes@);
        let mut n: usize = self.runes.len();
        assert(all.take(n as int) =~= all);
        while n > 0
            invariant
                n <= self.runes@.len(),
                all == runes_view(self.runes@),
                covering(all, at as int) == covering(all.take(n as int), at as int),
            decreases n,
        {
            assert(all.take(n as int).drop_last() =~= all.take(n - 1));
            let (offset, cell) = self.runes[n - 1];
            assert(all[n - 1] == (offset as int, (cell.0 as int, cell.1 as int)));
            if offset <= at {
                return Some(cell);
            }
            n = n - 1;
        }
        None
    }

    /// The position of the rune that a cell shows.
    fn position_of(&self, row: usize, col: usize) -> (r: Option<usize>)
        ensures
            r is Some <==> rune_of(runes_view(self.runes@), (row as int, col as int)) is Some,
            r matches Some(at) ==> rune_of(runes_view(self.runes@), (row as int, col as int))
                == Some(at as int),
    {
        let ghost all = runes_view(self.runes@);
        let ghost cell = (row as int, col as int);
        let mut n: usize = self.runes.len();
        assert(all.take(n as int) =~= all);
        while n > 0
            invariant
                n <= self.runes@.len(),
                all == runes_view(self.runes@),
                cell == (row as int, col as int),
                rune_of(all, cell) == rune_of(all.take(n as int), cell),
            decreases n,
        {
            assert(all.take(n as int).drop_last() =~= all.take(n - 1));
            let (offset, c) = self.runes[n - 1];
            assert(all[n - 1] == (offset as int, (c.0 as int, c.1 as int)));
            if c.0 == row && c.1 == col {
                return Some(offset);
            }
            n = n - 1;
        }
        None
    }
}

impl Default for LinkProbe {
    fn default() -> (p: LinkProbe)
        ensures
            p.url@ == Seq::<char>::empty(),
            p.text@.len() == 0,
            p.runes@.len() == 0,
    {
        LinkProbe::new()
    }
}

impl ScreenView {
    // ---- selections ------------------------------------------------------------------

    /// The part of a named row that a selection from `a` to `b` takes, its padding dropped.
    pub open spec fn selected_row(self, row: AbsRow, a: (AbsRow, usize), b: (AbsRow, usize)) -> Seq<
        char,
    > {
        let last = self.active().cols - 1;
        let from = if row == a.0 {
            a.1 as int
        } else {
            0
        };
        let to = if row == b.0 {
            least(b.1 as int, last)
        } else {
            last
        };
        match self.active().row_of(row) {
            Some(r) => unpadded(r.text(from, to + 1)),
            None => Seq::empty(),
        }
    }

    /// Rows `row` to `end` of a selection: joined by newlines, but for a soft wrap, which
    /// joins with nothing.
    pub open spec fn selected_rows(
        self,
        row: int,
        end: int,
        a: (AbsRow, usize),
        b: (AbsRow, usize),
    ) -> Seq<char>
        decreases end - row + 1,
    {
        if row > end || row < 0 {
            Seq::empty()
        } else {
            let abs = AbsRow(row as u64);
            self.selected_row(abs, a, b) + (if row != end && !self.wraps(abs) {
                seq!['\n']
            } else {
                Seq::empty()
            }) + self.selected_rows(row + 1, end, a, b)
        }
    }

    /// The text between two cells, either order, of the rows that still exist.
    pub open spec fn selection(self, a: (AbsRow, usize), b: (AbsRow, usize)) -> Seq<char> {
        let (start, end) = if reads_before(a, b) {
            (a, b)
        } else {
            (b, a)
        };
        let first = self.active().id_at(0).0;
        let last = self.active().id_end().0 - 1;
        self.selected_rows(
            if start.0.0 < first {
                first as int
            } else {
                start.0.0 as int
            },
            least(end.0.0 as int, last),
            start,
            end,
        )
    }

    // ---- words and lines ---------------------------------------------------------------

    /// Whether a cell continues a word; the right half of a wide glyph does where its leader
    /// does.
    pub open spec fn in_word(self, row: AbsRow, col: int) -> bool {
        let c = self.named_cell(row, col);
        !word_boundary(
            if c.spacer() && col > 0 {
                self.named_cell(row, col - 1).rune
            } else {
                c.rune
            },
        )
    }

    /// Where the word that reaches `col` starts.
    pub open spec fn word_start(self, row: AbsRow, col: int) -> int
        decreases col,
    {
        if col > 0 && self.in_word(row, col - 1) {
            self.word_start(row, col - 1)
        } else {
            col
        }
    }

    /// Where the word that reaches `col` ends.
    pub open spec fn word_end(self, row: AbsRow, col: int) -> int
        decreases self.active().cols - col,
    {
        if col + 1 < self.active().cols && self.in_word(row, col + 1) {
            self.word_end(row, col + 1)
        } else {
            col
        }
    }

    /// The first row of the logical line through `row`.
    pub open spec fn line_start(self, row: int) -> int
        decreases row,
    {
        if row <= 0 || row <= self.active().id_at(0).0 || !self.wraps(AbsRow((row - 1) as u64)) {
            row
        } else {
            self.line_start(row - 1)
        }
    }

    /// The last row of the logical line through `row`.
    pub open spec fn line_end(self, row: int) -> int
        decreases self.active().id_end().0 - row,
    {
        if row + 1 >= self.active().id_end().0 || !self.wraps(AbsRow(row as u64)) {
            row
        } else {
            self.line_end(row + 1)
        }
    }

    /// The display rows that the logical line at display `row` spans, clipped to the screen.
    pub open spec fn line_on_screen(self, row: int) -> (int, int) {
        let id = self.row_id(row).0 as int;
        (
            match self.shown_at(AbsRow(self.line_start(id) as u64)) {
                Some(r) => r,
                None => 0,
            },
            match self.shown_at(AbsRow(self.line_end(id) as u64)) {
                Some(r) => r,
                None => self.active().rows - 1,
            },
        )
    }

    // ---- hyperlinks --------------------------------------------------------------------

    /// The first cell of the run of cells inside link `id` that reaches `(row, col)`, no
    /// further back than display row `first`.
    pub open spec fn anchor_start(self, id: LinkId, first: int, row: int, col: int) -> (int, int)
        decreases row - first, col,
    {
        if col > 0 {
            if self.shown_cell(row, col - 1).link == id {
                self.anchor_start(id, first, row, col - 1)
            } else {
                (row, col)
            }
        } else if row > first && self.shown_cell(row - 1, self.active().cols - 1).link == id {
            self.anchor_start(id, first, row - 1, self.active().cols - 1)
        } else {
            (row, col)
        }
    }

    /// The last cell of the run of cells inside link `id` that reaches `(row, col)`, no
    /// further on than display row `last`.
    pub open spec fn anchor_end(self, id: LinkId, last: int, row: int, col: int) -> (int, int)
        decreases last - row, self.active().cols - col,
    {
        if col + 1 < self.active().cols {
            if self.shown_cell(row, col + 1).link == id {
                self.anchor_end(id, last, row, col + 1)
            } else {
                (row, col)
            }
        } else if row < last && self.shown_cell(row + 1, 0).link == id {
            self.anchor_end(id, last, row + 1, 0)
        } else {
            (row, col)
        }
    }

    /// A probe with the first `k` cells of a display row read: base runes with their marks,
    /// the right halves of wide glyphs skipped.
    pub open spec fn probed_cells(self, p: ProbeView, row: int, k: int) -> ProbeView
        decreases k,
    {
        if k <= 0 {
            p
        } else {
            let q = self.probed_cells(p, row, k - 1);
            let cell = self.shown_cell(row, k - 1);
            if cell.spacer() {
                q
            } else {
                ProbeView {
                    text: q.text.push(cell.rune) + row_marks(self.shown_row(row), k - 1),
                    runes: q.runes.push((q.text.len() as int, (row, k - 1))),
                }
            }
        }
    }

    /// The line on `n` display rows from `first` on.
    pub open spec fn probed(self, first: int, n: int) -> ProbeView
        decreases n,
    {
        if n <= 0 {
            ProbeView { text: Seq::empty(), runes: Seq::empty() }
        } else {
            self.probed_cells(self.probed(first, n - 1), first + n - 1, self.active().cols as int)
        }
    }

    /// The cell a probe at `(row, col)` is about: a spacer stands for its leader.
    pub open spec fn probe_col(self, row: int, col: int) -> int {
        if self.shown_cell(row, col).spacer() && col > 0 {
            col - 1
        } else {
            col
        }
    }

    /// The URL in the text of the line under a cell, and the cells it occupies.
    pub open spec fn scanned_link(self, row: int, col: int) -> Option<
        (((int, int), (int, int)), Seq<char>),
    > {
        let (first, last) = self.line_on_screen(row);
        let line = self.probed(first, last - first + 1);
        match rune_of(line.runes, (row, col)) {
            None => None,
            Some(at) => match url_at(line.text, at) {
                None => None,
                Some((start, end)) => match (
                    covering(line.runes, start),
                    covering(line.runes, end - 1),
                ) {
                    (Some(from), Some(to)) => Some(
                        (
                            (
                                from,
                                if self.shown_cell(to.0, to.1).leader() && to.1 + 1
                                    < self.active().cols {
                                    (to.0, to.1 + 1)
                                } else {
                                    to
                                },
                            ),
                            line.text.subrange(start, end),
                        ),
                    ),
                    _ => None,
                },
            },
        }
    }

    /// The hyperlink under a cell: the one it is marked with, or else the one its text
    /// spells.
    pub open spec fn link_under(self, row: int, col: int) -> Option<
        (((int, int), (int, int)), Seq<char>),
    > {
        let c = self.probe_col(row, col);
        let id = self.shown_cell(row, c).link;
        if col >= self.active().cols {
            None
        } else if id == LinkId(0) {
            self.scanned_link(row, c)
        } else {
            match url_of(self.links, id) {
                None => None,
                Some(url) => {
                    let (first, last) = self.line_on_screen(row);
                    Some(
                        (
                            (
                                self.anchor_start(id, first, row, c),
                                self.anchor_end(id, last, row, c),
                            ),
                            url,
                        ),
                    )
                },
            }
        }
    }
}

impl Screen {
    /// The text of a linear selection, `a` to `b` inclusive in absolute cells, either order.
    /// Rows join with a newline, except a soft-wrapped row, which joins with nothing.
    /// Trailing blanks on a row are dropped, wide spacers skipped, combining marks kept.
    pub fn selection_text(&self, a: (AbsRow, usize), b: (AbsRow, usize)) -> (r: String)
        requires
            self.wf(),
        ensures
            r@ == self@.selection(a, b),
    {
        let forward: bool = a.0.0 < b.0.0 || (a.0.0 == b.0.0 && a.1 <= b.1);
        let (start, end) = if forward {
            (a, b)
        } else {
            (b, a)
        };
        let buf = self.active();
        let last_col: usize = buf.cols - 1;
        // Clip to the rows that still exist.
        let first: u64 = buf.abs_of(0).0;
        let start_row: u64 = if start.0.0 < first {
            first
        } else {
            start.0.0
        };
        let mut out = String::new();
        assert(out@ =~= Seq::empty());
        let past: u64 = buf.abs_end().0;
        if past == 0 {
            return out;
        }
        let end_row: u64 = if end.0.0 < past - 1 {
            end.0.0
        } else {
            past - 1
        };
        let ghost total = self@.selected_rows(start_row as int, end_row as int, start, end);
        if start_row > end_row {
            return out;
        }
        let mut row: u64 = start_row;
        assert(out@ + total =~= total);
        loop
            invariant_except_break
                self.wf(),
                buf@ == self@.active(),
                last_col == self@.active().cols - 1,
                row <= end_row,
                total == self@.selected_rows(start_row as int, end_row as int, start, end),
                out@ + self@.selected_rows(row as int, end_row as int, start, end) == total,
            ensures
                out@ == total,
            decreases end_row - row,
        {
            let ghost before = out@;
            let abs = AbsRow(row);
            let from: usize = if abs == start.0 {
                start.1
            } else {
                0
            };
            let to: usize = if abs == end.0 && end.1 < last_col {
                end.1
            } else {
                last_col
            };
            let mut line = String::new();
            if let Some(r) = buf.abs_row(abs) {
                r.push_text(from, to + 1, &mut line);
                drop_padding(&mut line);
            }
            assert(line@ =~= self@.selected_row(abs, start, end));
            out.push_str(line.as_str());
            // A soft wrap continues the same logical line: no newline.
            if row != end_row && !self.wraps(abs) {
                out.push('\n');
            }
            let ghost piece = self@.selected_row(abs, start, end) + (if row != end_row
                && !self@.wraps(abs) {
                seq!['\n']
            } else {
                Seq::empty()
            });
            let ghost rest = self@.selected_rows(row + 1, end_row as int, start, end);
            assert(out@ =~= before + piece);
            assert(before + (piece + rest) =~= out@ + rest);
            if row == end_row {
                assert(rest =~= Seq::empty());
                assert(out@ + rest =~= out@);
                break;
            }
            row = row + 1;
        }
        out
    }

    /// Whether a cell continues a word.
    fn is_word(&self, row: AbsRow, col: usize) -> (r: bool)
        ensures
            r == self@.in_word(row, col as int),
    {
        let cell = self.abs_cell(row, col);
        if cell.is_wide_spacer() && col > 0 {
            !is_word_boundary(self.abs_cell(row, col - 1).rune)
        } else {
            !is_word_boundary(cell.rune)
        }
    }

    /// The inclusive cell range of the word at `(row, col)`. Clicking a boundary cell selects
    /// just that cell.
    pub fn word_at(&self, row: AbsRow, col: usize) -> (r: ((AbsRow, usize), (AbsRow, usize)))
        requires
            self.wf(),
        ensures
            r.0.0 == row,
            r.1.0 == row,
            col < self@.active().cols && self@.in_word(row, col as int) ==> r.0.1
                == self@.word_start(row, col as int) && r.1.1 == self@.word_end(row, col as int),
            !(col < self@.active().cols && self@.in_word(row, col as int)) ==> r.0.1 == col
                && r.1.1 == col,
    {
        let cols: usize = self.dimensions().0;
        if col >= cols || !self.is_word(row, col) {
            return ((row, col), (row, col));
        }
        let mut start: usize = col;
        while start > 0 && self.is_word(row, start - 1)
            invariant
                start <= col,
                self@.word_start(row, col as int) == self@.word_start(row, start as int),
            decreases start,
        {
            start = start - 1;
        }
        let mut end: usize = col;
        while end + 1 < cols && self.is_word(row, end + 1)
            invariant
                col <= end < cols,
                cols == self@.active().cols,
                self@.word_end(row, col as int) == self@.word_end(row, end as int),
            decreases cols - end,
        {
            end = end + 1;
        }
        ((row, start), (row, end))
    }

    /// The inclusive cell range of the whole logical line at absolute `row`: every row a soft
    /// wrap joined, edge to edge. The walk runs over the stream, not the visible band.
    pub fn line_at(&self, row: AbsRow) -> (r: ((AbsRow, usize), (AbsRow, usize)))
        requires
            self.wf(),
        ensures
            r.0.0.0 == self@.line_start(row.0 as int),
            r.1.0.0 == self@.line_end(row.0 as int),
            r.0.1 == 0,
            r.1.1 == self@.active().cols - 1,
    {
        let b = self.active();
        let last_col: usize = b.cols - 1;
        let first: u64 = b.abs_of(0).0;
        let past: u64 = b.abs_end().0;
        let mut start: u64 = row.0;
        while start > 0 && start > first && self.wraps(AbsRow(start - 1))
            invariant
                start <= row.0,
                first == self@.active().id_at(0).0,
                self@.line_start(row.0 as int) == self@.line_start(start as int),
            decreases start,
        {
            start = start - 1;
        }
        let mut end: u64 = row.0;
        while end < u64::MAX && end + 1 < past && self.wraps(AbsRow(end))
            invariant
                row.0 <= end,
                past == self@.active().id_end().0,
                self@.line_end(row.0 as int) == self@.line_end(end as int),
            decreases u64::MAX - end,
        {
            end = end + 1;
        }
        ((AbsRow(start), 0), (AbsRow(end), last_col))
    }

    /// The display rows the logical line at display `row` spans, clipped to the screen.
    fn line_rows_on_screen(&self, row: usize) -> (r: (usize, usize))
        requires
            self.wf(),
        ensures
            r.0 == self@.line_on_screen(row as int).0,
            r.1 == self@.line_on_screen(row as int).1,
            r.0 < self@.active().rows,
            r.1 < self@.active().rows,
    {
        let rows: usize = self.dimensions().1;
        let (first, last) = self.line_at(self.abs_row(row));
        let top: usize = match self.display_row(first.0) {
            Some(r) => r,
            None => 0,
        };
        let bottom: usize = match self.display_row(last.0) {
            Some(r) => r,
            None => rows - 1,
        };
        (top, bottom)
    }

    /// The extent of the anchor `id` around `(row, col)`: the unbroken run of cells carrying
    /// that same id, in reading order across the whole logical line.
    fn anchor_span(&self, row: usize, col: usize, id: LinkId) -> (r: Span)
        requires
            self.wf(),
            col < self@.active().cols,
        ensures
            (r.0.0 as int, r.0.1 as int) == self@.anchor_start(
                id,
                self@.line_on_screen(row as int).0,
                row as int,
                col as int,
            ),
            (r.1.0 as int, r.1.1 as int) == self@.anchor_end(
                id,
                self@.line_on_screen(row as int).1,
                row as int,
                col as int,
            ),
    {
        let cols: usize = self.dimensions().0;
        let (first, last) = self.line_rows_on_screen(row);
        let (mut r, mut c): (usize, usize) = (row, col);
        loop
            invariant_except_break
                self.wf(),
                cols == self@.active().cols,
                c < cols,
                r <= row,
                self@.anchor_start(id, first as int, row as int, col as int)
                    == self@.anchor_start(id, first as int, r as int, c as int),
            ensures
                (r as int, c as int) == self@.anchor_start(
                    id,
                    first as int,
                    row as int,
                    col as int,
                ),
            decreases r, c,
        {
            if c > 0 {
                if self.view_cell(r, c - 1).link == id {
                    c = c - 1;
                } else {
                    break;
                }
            } else if r > first && self.view_cell(r - 1, cols - 1).link == id {
                r = r - 1;
                c = cols - 1;
            } else {
                break;
            }
        }
        let start = (r, c);
        let (mut r, mut c): (usize, usize) = (row, col);
        loop
            invariant_except_break
                self.wf(),
                cols == self@.active().cols,
                c < cols,
                last < self@.active().rows,
                r <= last || r == row,
                self@.anchor_end(id, last as int, row as int, col as int) == self@.anchor_end(
                    id,
                    last as int,
                    r as int,
                    c as int,
                ),
            ensures
                (r as int, c as int) == self@.anchor_end(
                    id,
                    last as int,
                    row as int,
                    col as int,
                ),
            decreases (if r < last { last - r } else { 0 }), cols - c,
        {
            if c + 1 < cols {
                if self.view_cell(r, c + 1).link == id {
                    c = c + 1;
                } else {
                    break;
                }
            } else if r < last && self.view_cell(r + 1, 0).link == id {
                r = r + 1;
                c = 0;
            } else {
                break;
            }
        }
        (start, (r, c))
    }

    /// Read display rows `first` to `last` into the probe.
    fn fill_probe(&self, probe: &mut LinkProbe, first: usize, last: usize)
        requires
            self.wf(),
            last < self@.active().rows,
            old(probe).text@.len() == 0,
            old(probe).runes@.len() == 0,
        ensures
            final(probe).lines() == self@.probed(first as int, last - first + 1),
            final(probe).url == old(probe).url,
    {
        let cols: usize = self.dimensions().0;
        let mut r: usize = first;
        assert(probe.lines() =~= self@.probed(first as int, 0));
        while r <= last
            invariant
                self.wf(),
                last < self@.active().rows,
                cols == self@.active().cols,
                first <= r,
                r <= last + 1 || r == first,
                probe.lines() == self@.probed(first as int, r - first),
                probe.url == old(probe).url,
            decreases last + 1 - r,
        {
            let ghost p = probe.lines();
            let mut c: usize = 0;
            while c < cols
                invariant
                    self.wf(),
                    cols == self@.active().cols,
                    c <= cols,
                    probe.lines() == self@.probed_cells(p, r as int, c as int),
                    probe.url == old(probe).url,
                decreases cols - c,
            {
                let cell = self.view_cell(r, c);
                if !cell.is_wide_spacer() {
                    let ghost q = probe.lines();
                    probe.runes.push((probe.text.len(), (r, c)));
                    probe.text.push(cell.rune);
                    let mut marks = self.view_marks(r, c);
                    probe.text.append(&mut marks);
                    assert(probe.lines() =~= ProbeView {
                        text: q.text.push(cell.rune) + row_marks(
                            self@.shown_row(r as int),
                            c as int,
                        ),
                        runes: q.runes.push((q.text.len() as int, (r as int, c as int))),
                    });
                }
                c = c + 1;
            }
            r = r + 1;
        }
    }

    /// The hyperlink that the text of the line under a cell spells.
    fn scan_link(&self, row: usize, col: usize, probe: &mut LinkProbe) -> (r: Option<Span>)
        requires
            self.wf(),
            old(probe).text@.len() == 0,
            old(probe).runes@.len() == 0,
            old(probe).url@.len() == 0,
        ensures
            r is Some <==> self@.scanned_link(row as int, col as int) is Some,
            r matches Some(s) ==> self@.scanned_link(row as int, col as int) == Some(
                (
                    ((s.0.0 as int, s.0.1 as int), (s.1.0 as int, s.1.1 as int)),
                    final(probe).url@,
                ),
            ),
            r is None ==> final(probe).url@.len() == 0,
    {
        let cols: usize = self.dimensions().0;
        let (first, last) = self.line_rows_on_screen(row);
        self.fill_probe(probe, first, last);
        let ghost line = self@.probed(first as int, last - first + 1);
        let at = match probe.position_of(row, col) {
            Some(at) => at,
            None => {
                return None;
            },
        };
        let (from, to) = match find_at(&probe.text, at) {
            Some(found) => found,
            None => {
                return None;
            },
        };
        // `to` is exclusive, so the last rune inside the link covers the place before it.
        match (probe.cell_at(from), probe.cell_at(to - 1)) {
            (Some(start), Some(end)) => {
                let mut k: usize = from;
                assert(probe.url@ =~= line.text.subrange(from as int, from as int));
                while k < to
                    invariant
                        from <= k <= to <= probe.text@.len(),
                        probe.text@ == line.text,
                        probe.url@ == line.text.subrange(from as int, k as int),
                    decreases to - k,
                {
                    let c = probe.text[k];
                    probe.url.push(c);
                    k = k + 1;
                    assert(probe.url@ =~= line.text.subrange(from as int, k as int));
                }
                let mut end = end;
                if self.view_cell(end.0, end.1).is_wide_leader() && end.1 < cols && end.1 + 1
                    < cols {
                    end = (end.0, end.1 + 1);
                }
                Some((start, end))
            },
            _ => None,
        }
    }

    /// The hyperlink under display `(row, col)`: the inclusive cell range its text occupies,
    /// in reading order, with the URL left in `probe`. `None` when that cell is not inside
    /// one, and then the URL in `probe` is empty.
    ///
    /// A cell that carries a link id belongs to that link, and its extent is the run of cells
    /// sharing the id. Otherwise the text of the whole logical line is scanned for a URL,
    /// soft wraps joined. Probing the right half of a wide glyph probes the glyph.
    pub fn link_at(&self, row: usize, col: usize, probe: &mut LinkProbe) -> (r: Option<Span>)
        requires
            self.wf(),
        ensures
            r is Some <==> self@.link_under(row as int, col as int) is Some,
            r matches Some(s) ==> self@.link_under(row as int, col as int) == Some(
                (
                    ((s.0.0 as int, s.0.1 as int), (s.1.0 as int, s.1.1 as int)),
                    final(probe).url@,
                ),
            ),
            r is None ==> final(probe).url@.len() == 0,
    {
        probe.text.clear();
        probe.runes.clear();
        probe.url = String::new();
        assert(probe.url@.len() == 0);
        let cols: usize = self.dimensions().0;
        if col >= cols {
            return None;
        }
        // The right half of a wide glyph belongs to the glyph on its left.
        let col: usize = if self.view_cell(row, col).is_wide_spacer() {
            col.saturating_sub(1)
        } else {
            col
        };
        let id = self.view_cell(row, col).link;
        if id.is_set() {
            match self.links.url(id) {
                Some(url) => {
                    probe.url = url.to_owned();
                    Some(self.anchor_span(row, col, id))
                },
                None => None,
            }
        } else {
            self.scan_link(row, col, probe)
        }
    }
}

} // verus!
