//! What is read off the screen: cells, rows of the view, text, words, links and URLs.
use vstd::prelude::*;
use crate::cell::{Cell, LinkId};
use crate::codec::{space_char, trim_end};
use crate::color::Color;
use crate::ids::AbsRow;
use crate::line_laws::{lesser, space_on};
use crate::link::{
    closing_char, last_scheme, run_end, run_start, scheme_at, url_at, url_char, url_end,
};
use crate::row::{marks_of, CombiningMark, RowView};
use crate::screen::ScreenView;
use crate::select::{covering, rune_of, unpadded, word_boundary, ProbeView};

verus! {

// ---- cells and rows -----------------------------------------------------------------------------

/// A cell of the live screen is the one its row holds, and a bare space off the screen; so is
/// a cell of the view, and a cell of a named line.
pub proof fn lemma_cells_read(s: ScreenView, row: int, col: int, abs: AbsRow)
    ensures
        ({
            let b = s.active();
            let off = space_on(Color::Default);
            &&& 0 <= row < b.lines.len() && 0 <= col < b.lines[row].cells.len() ==> b.cell_at(
                row,
                col,
            ) == b.lines[row].cells[col]
            &&& !(0 <= row < b.lines.len() && 0 <= col < b.lines[row].cells.len()) ==> b.cell_at(
                row,
                col,
            ) == off
            &&& match s.shown_row(row) {
                Some(r) => s.shown_cell(row, col) == (if 0 <= col < r.cells.len() {
                    r.cells[col]
                } else {
                    off
                }),
                None => s.shown_cell(row, col) == off,
            }
            &&& match b.row_of(abs) {
                Some(r) => s.named_cell(abs, col) == (if 0 <= col < r.cells.len() {
                    r.cells[col]
                } else {
                    off
                }),
                None => s.named_cell(abs, col) == off,
            }
        }),
{
}

/// The rows of the view: the live screen where it is not scrolled, and where it is scrolled up
/// by `k` lines the last `k` lines of history above the top of the screen. The alternate
/// screen is never scrolled.
pub proof fn lemma_view_rows(s: ScreenView, row: int)
    requires
        s.wf(),
        0 <= row < s.active().rows,
    ensures
        ({
            let b = s.active();
            let k = if s.on_alt {
                0
            } else {
                s.view_offset as int
            };
            s.shown_row(row) == Some(
                if row < k {
                    b.scrollback[b.scrollback.len() - k + row]
                } else {
                    b.lines[row - k]
                },
            )
        }),
{
}

/// A line's name is its place in everything printed: what has left the history, then the
/// history, then the screen.
pub proof fn lemma_row_names(s: ScreenView, row: int, abs: AbsRow)
    requires
        s.wf(),
        0 <= row < s.active().rows,
        s.active().evicted + s.active().stream().len() <= u64::MAX,
        s.active().stream().len() <= usize::MAX,
    ensures
        ({
            let b = s.active();
            let k = if s.on_alt {
                0
            } else {
                s.view_offset as int
            };
            let n = b.scrollback.len() as int;
            let i = abs.0 - b.evicted;
            &&& s.row_id(row).0 == b.evicted + n - k + row
            &&& b.row_of(abs) == (if 0 <= i < n {
                Some(b.scrollback[i])
            } else if n <= i < n + b.rows {
                Some(b.lines[i - n])
            } else {
                None
            })
            &&& b.id_end().0 == b.evicted + n + b.rows
        }),
{
}

/// Scrolling the view: up by as many lines as asked but no further than the oldest, down by
/// as many but no further than the live screen. Nothing else changes, and the alternate
/// screen does not scroll up.
pub proof fn lemma_view_moves(s: ScreenView, n: int)
    requires
        s.wf(),
        0 <= n <= usize::MAX,
    ensures
        ({
            let u = s.viewed_up(n);
            let d = s.viewed_down(n);
            &&& u == (ScreenView { view_offset: u.view_offset, ..s })
            &&& d == (ScreenView { view_offset: d.view_offset, ..s })
            &&& s.on_alt ==> u == s
            &&& !s.on_alt ==> u.view_offset == lesser(
                s.view_offset + n,
                s.primary.scrollback.len() as int,
            )
            &&& d.view_offset == (if n <= s.view_offset {
                s.view_offset - n
            } else {
                0
            })
        }),
{
}

// ---- text ---------------------------------------------------------------------------------------

/// The marks of a column are those put there, in the order they came.
pub proof fn lemma_marks_in_order(marks: Seq<CombiningMark>, col: usize, at: int, ch: char)
    ensures
        marks_of(Seq::<CombiningMark>::empty(), at) == Seq::<char>::empty(),
        marks_of(marks.push(CombiningMark { col, ch }), at) == (if col == at {
            marks_of(marks, at).push(ch)
        } else {
            marks_of(marks, at)
        }),
{
    let more = marks.push(CombiningMark { col, ch });
    assert(more.drop_last() =~= marks);
    assert(more.last() == (CombiningMark { col, ch }));
}

/// The text of one cell is its character and the marks on it; the right half of a wide
/// character has none.
pub proof fn lemma_text_of_a_cell(r: RowView, col: int)
    requires
        0 <= col < r.cells.len(),
    ensures
        r.text(col, col + 1) == (if r.cells[col].attrs.0 & 256 == 256 {
            Seq::empty()
        } else {
            seq![r.cells[col].rune] + marks_of(r.marks, col)
        }),
        r.text(col, col) == Seq::<char>::empty(),
{
    assert(r.text(col, col) == Seq::<char>::empty());
    assert(Seq::<char>::empty().push(r.cells[col].rune) =~= seq![r.cells[col].rune]);
}

/// The text of a stretch of a row is the texts of its parts, one behind the other.
pub proof fn lemma_text_joins(r: RowView, from: int, mid: int, to: int)
    requires
        from <= mid <= to,
    ensures
        r.text(from, to) == r.text(from, mid) + r.text(mid, to),
    decreases to - mid,
{
    if mid == to {
        assert(r.text(mid, to) == Seq::<char>::empty());
        assert(r.text(from, mid) + Seq::<char>::empty() =~= r.text(from, mid));
    } else {
        lemma_text_joins(r, from, mid, to - 1);
        let a = r.text(from, mid);
        let b = r.text(mid, to - 1);
        let own = marks_of(r.marks, to - 1);
        let cell = if to - 1 < r.cells.len() {
            r.cells[to - 1]
        } else {
            Cell::blank()
        };
        assert((a + b).push(cell.rune) + own =~= a + (b.push(cell.rune) + own));
    }
}

/// A text without its padding is a start of it that does not end in a space, and what was
/// dropped is spaces.
pub proof fn lemma_padding_dropped(text: Seq<char>)
    ensures
        ({
            let t = unpadded(text);
            let n = t.len() as int;
            &&& n <= text.len()
            &&& text.take(n) == t
            &&& n > 0 ==> text[n - 1] != ' '
            &&& forall|i: int| n <= i < text.len() ==> #[trigger] text[i] == ' '
        }),
    decreases text.len(),
{
    if text.len() > 0 && text.last() == ' ' {
        let init = text.drop_last();
        lemma_padding_dropped(init);
        let n = unpadded(text).len() as int;
        assert(init.take(n) =~= text.take(n));
        assert(n > 0 ==> init[n - 1] == text[n - 1]);
        assert forall|i: int| n <= i < text.len() implies #[trigger] text[i] == ' ' by {
            if i < init.len() {
                assert(init[i] == text[i]);
            }
        }
    } else {
        assert(text.take(text.len() as int) =~= text);
    }
}

/// A selection within a line is the text of its cells, either way round, both ends included.
pub proof fn lemma_selection_in_a_row(s: ScreenView, abs: AbsRow, from: usize, to: usize)
    requires
        s.wf(),
        s.active().evicted + s.active().stream().len() < u64::MAX,
        s.active().stream().len() <= usize::MAX,
        s.active().row_of(abs) is Some,
        from <= to < s.active().cols,
    ensures
        ({
            let r = s.active().row_of(abs)->0;
            &&& s.selection((abs, from), (abs, to)) == unpadded(r.text(from as int, to + 1))
            &&& s.selection((abs, to), (abs, from)) == unpadded(r.text(from as int, to + 1))
        }),
{
    let r = s.active().row_of(abs)->0;
    let a = (abs, from);
    let b = (abs, to);
    let n = abs.0 as int;
    assert(AbsRow(n as u64) == abs);
    assert(s.selected_rows(n + 1, n, a, b) == Seq::<char>::empty());
    let own = s.selected_row(abs, a, b);
    assert(own == unpadded(r.text(from as int, to + 1)));
    assert(s.selected_rows(n, n, a, b) == own + Seq::<char>::empty() + Seq::<char>::empty());
    assert(own + Seq::<char>::empty() + Seq::<char>::empty() =~= own);
    if from == to {
        assert(a == b);
    }
}

/// A selection over two lines takes the first from its cell on and the second up to its own,
/// with a newline between them where the first does not wrap into the second.
pub proof fn lemma_selection_over_two_rows(s: ScreenView, abs: AbsRow, from: usize, to: usize)
    requires
        s.wf(),
        s.active().evicted + s.active().stream().len() < u64::MAX,
        s.active().stream().len() <= usize::MAX,
        s.active().row_of(abs) is Some,
        s.active().row_of(AbsRow((abs.0 + 1) as u64)) is Some,
        from < s.active().cols,
        to < s.active().cols,
    ensures
        ({
            let next = AbsRow((abs.0 + 1) as u64);
            let r = s.active().row_of(abs)->0;
            let q = s.active().row_of(next)->0;
            s.selection((abs, from), (next, to)) == unpadded(
                r.text(from as int, s.active().cols as int),
            ) + (if r.wrapped {
                Seq::empty()
            } else {
                seq!['\n']
            }) + unpadded(q.text(0, to + 1))
        }),
{
    let next = AbsRow((abs.0 + 1) as u64);
    let r = s.active().row_of(abs)->0;
    let q = s.active().row_of(next)->0;
    let a = (abs, from);
    let b = (next, to);
    let n = abs.0 as int;
    assert(AbsRow(n as u64) == abs && AbsRow((n + 1) as u64) == next);
    assert(s.selected_rows(n + 2, n + 1, a, b) == Seq::<char>::empty());
    let two = s.selected_row(next, a, b);
    assert(s.selected_rows(n + 1, n + 1, a, b) == two + Seq::<char>::empty() + Seq::<
        char,
    >::empty());
    assert(two + Seq::<char>::empty() + Seq::<char>::empty() =~= two);
    assert(s.wraps(abs) == r.wrapped);
    let one = s.selected_row(abs, a, b);
    assert(one == unpadded(r.text(from as int, s.active().cols as int)));
    assert(two == unpadded(q.text(0, to + 1)));
    assert(s.selected_rows(n, n + 1, a, b) == one + (if !r.wrapped {
        seq!['\n']
    } else {
        Seq::empty()
    }) + two);
}

/// What bounds a word: white space, and the brackets and quotes that fence a token; no letter,
/// no digit, and nothing else that is printed.
pub proof fn lemma_word_bounds(c: char)
    ensures
        space_char(c) ==> word_boundary(c),
        c == '{' || c == '}' || c == '[' || c == ']' || c == '(' || c == ')' || c == '"' || c
            == '\'' || c == '`' ==> word_boundary(c),
        'a' <= c <= 'z' || 'A' <= c <= 'Z' || '0' <= c <= '9' || c == '_' || c == '-' || c == '.'
            || c == '/' || c == ':' || c == ',' || c == ';' || c == '<' || c == '>' || c == '|'
            ==> !word_boundary(c),
        c as u32 > 0x3000 ==> !word_boundary(c),
        space_char(' ') && space_char('\t') && space_char('\n'),
{
}

/// The dump of the screen: each row without the white space at its end, the rows joined by
/// newlines.
pub proof fn lemma_dump_rows(s: ScreenView, n: int)
    requires
        n >= 1,
    ensures
        ({
            let row = s.row_text(n - 1);
            let k = trim_end(row);
            &&& 0 <= k <= row.len()
            &&& k > 0 ==> !space_char(row[k - 1])
            &&& forall|i: int| k <= i < row.len() ==> space_char(#[trigger] row[i])
            &&& s.rows_text(1) == s.row_text(0).take(trim_end(s.row_text(0)))
            &&& n >= 2 ==> s.rows_text(n) == s.rows_text(n - 1) + seq!['\n'] + row.take(k)
        }),
{
    lemma_trimmed(s.row_text(n - 1));
    reveal_strlit("\n");
    assert("\n"@ =~= seq!['\n']);
}

proof fn lemma_trimmed(text: Seq<char>)
    ensures
        ({
            let k = trim_end(text);
            &&& 0 <= k <= text.len()
            &&& k > 0 ==> !space_char(text[k - 1])
            &&& forall|i: int| k <= i < text.len() ==> space_char(#[trigger] text[i])
        }),
    decreases text.len(),
{
    if text.len() > 0 && space_char(text.last()) {
        let init = text.drop_last();
        lemma_trimmed(init);
        let k = trim_end(text);
        assert(k > 0 ==> init[k - 1] == text[k - 1]);
        assert forall|i: int| k <= i < text.len() implies space_char(#[trigger] text[i]) by {
            if i < init.len() {
                assert(init[i] == text[i]);
            }
        }
    }
}

// ---- links --------------------------------------------------------------------------------------

/// The run of cells of one link through a cell starts where the cell before it in reading
/// order, if it is on the line, is outside the link.
pub proof fn lemma_anchor_start(s: ScreenView, id: LinkId, first: int, row: int, col: int)
    requires
        0 <= first <= row,
        0 <= col < s.active().cols,
        s.shown_cell(row, col).link == id,
    ensures
        ({
            let (r, c) = s.anchor_start(id, first, row, col);
            &&& first <= r <= row && 0 <= c < s.active().cols
            &&& r < row || c <= col
            &&& s.shown_cell(r, c).link == id
            &&& c > 0 ==> s.shown_cell(r, c - 1).link != id
            &&& c == 0 && r > first ==> s.shown_cell(r - 1, s.active().cols - 1).link != id
            &&& forall|j: int|
                0 <= j <= col && (r < row || c <= j) ==> (#[trigger] s.shown_cell(row, j)).link == id
        }),
    decreases row - first, col,
{
    if col > 0 {
        if s.shown_cell(row, col - 1).link == id {
            lemma_anchor_start(s, id, first, row, col - 1);
        }
    } else if row > first && s.shown_cell(row - 1, s.active().cols - 1).link == id {
        lemma_anchor_start(s, id, first, row - 1, s.active().cols - 1);
    }
}

/// It ends where the cell after it, if it is on the line, is outside the link.
pub proof fn lemma_anchor_end(s: ScreenView, id: LinkId, last: int, row: int, col: int)
    requires
        0 <= row <= last,
        0 <= col < s.active().cols,
        s.shown_cell(row, col).link == id,
    ensures
        ({
            let (r, c) = s.anchor_end(id, last, row, col);
            &&& row <= r <= last && 0 <= c < s.active().cols
            &&& row < r || col <= c
            &&& s.shown_cell(r, c).link == id
            &&& c + 1 < s.active().cols ==> s.shown_cell(r, c + 1).link != id
            &&& c + 1 == s.active().cols && r < last ==> s.shown_cell(r + 1, 0).link != id
            &&& forall|j: int|
                col <= j < s.active().cols && (row < r || j <= c) ==> (#[trigger] s.shown_cell(
                    row,
                    j,
                )).link == id
        }),
    decreases last - row, s.active().cols - col,
{
    if col + 1 < s.active().cols {
        if s.shown_cell(row, col + 1).link == id {
            lemma_anchor_end(s, id, last, row, col + 1);
        }
    } else if row < last && s.shown_cell(row + 1, 0).link == id {
        lemma_anchor_end(s, id, last, row + 1, 0);
    }
}

/// A cell inside a link is under that link, whatever its text spells.
pub proof fn lemma_marked_link(s: ScreenView, row: int, col: int)
    requires
        0 <= col < s.active().cols,
        s.shown_cell(row, col).attrs.0 & 256 != 256,
        s.shown_cell(row, col).link.0 != 0,
    ensures
        match crate::links::url_of(s.links, s.shown_cell(row, col).link) {
            Some(url) => s.link_under(row, col) matches Some((_, found)) && found == url,
            None => s.link_under(row, col) is None,
        },
{
}

/// A probe of a line stands by its cells: each of its characters that came from a cell is the
/// cell's, and the cells come in the order of the text.
pub open spec fn probe_holds(s: ScreenView, p: ProbeView) -> bool {
    &&& forall|i: int|
        #![trigger p.runes[i]]
        0 <= i < p.runes.len() ==> 0 <= p.runes[i].0 < p.text.len() && p.text[p.runes[i].0]
            == s.shown_cell(p.runes[i].1.0, p.runes[i].1.1).rune
    &&& forall|i: int, j: int|
        #![trigger p.runes[i], p.runes[j]]
        0 <= i < j < p.runes.len() ==> p.runes[i].0 < p.runes[j].0
}

/// The cells of a row read into a probe: it still stands by its cells, keeps what it had, and
/// has every cell read but the right halves of wide characters.
proof fn lemma_probed_cells(s: ScreenView, p: ProbeView, row: int, k: int)
    requires
        probe_holds(s, p),
        0 <= k,
    ensures
        ({
            let q = s.probed_cells(p, row, k);
            &&& probe_holds(s, q)
            &&& q.text.len() >= p.text.len()
            &&& q.runes.len() >= p.runes.len()
            &&& forall|i: int| 0 <= i < p.runes.len() ==> #[trigger] q.runes[i] == p.runes[i]
            &&& forall|c: int|
                0 <= c < k && (#[trigger] s.shown_cell(row, c)).attrs.0 & 256 != 256 ==> exists|
                    i: int,
                |
                    0 <= i < q.runes.len() && (#[trigger] q.runes[i]).1 == (row, c)
        }),
    decreases k,
{
    if k > 0 {
        lemma_probed_cells(s, p, row, k - 1);
        let before = s.probed_cells(p, row, k - 1);
        let q = s.probed_cells(p, row, k);
        let cell = s.shown_cell(row, k - 1);
        if !cell.spacer() {
            let n = before.runes.len() as int;
            assert(q.runes[n] == (before.text.len() as int, (row, k - 1)));
            assert(q.text[before.text.len() as int] == cell.rune);
            assert forall|i: int|
                #![trigger q.runes[i]]
                0 <= i < q.runes.len() implies 0 <= q.runes[i].0 < q.text.len()
                && q.text[q.runes[i].0] == s.shown_cell(q.runes[i].1.0, q.runes[i].1.1).rune by {
                if i < n {
                    assert(q.runes[i] == before.runes[i]);
                    assert(q.text[q.runes[i].0] == before.text[before.runes[i].0]);
                }
            }
            assert forall|i: int, j: int|
                #![trigger q.runes[i], q.runes[j]]
                0 <= i < j < q.runes.len() implies q.runes[i].0 < q.runes[j].0 by {
                assert(q.runes[i] == before.runes[i]);
                if j < n {
                    assert(q.runes[j] == before.runes[j]);
                }
            }
        }
        assert forall|c: int|
            0 <= c < k && (#[trigger] s.shown_cell(row, c)).attrs.0 & 256
                != 256 implies exists|i: int|
            0 <= i < q.runes.len() && (#[trigger] q.runes[i]).1 == (row, c) by {
            if c < k - 1 {
                let i = choose|i: int|
                    0 <= i < before.runes.len() && (#[trigger] before.runes[i]).1 == (row, c);
                assert(q.runes[i] == before.runes[i]);
            } else {
                let n = before.runes.len() as int;
                assert(q.runes[n].1 == (row, c));
            }
        }
    }
}

/// The line a search for a URL reads stands by the cells of its rows, from the first to the
/// last.
pub proof fn lemma_probe_holds(s: ScreenView, first: int, n: int)
    requires
        0 <= n,
    ensures
        probe_holds(s, s.probed(first, n)),
        forall|r: int, c: int|
            first <= r < first + n && 0 <= c < s.active().cols && (#[trigger] s.shown_cell(
                r,
                c,
            )).attrs.0 & 256 != 256 ==> exists|i: int|
                0 <= i < s.probed(first, n).runes.len() && (#[trigger] s.probed(
                    first,
                    n,
                ).runes[i]).1 == (r, c),
    decreases n,
{
    if n > 0 {
        lemma_probe_holds(s, first, n - 1);
        let p = s.probed(first, n - 1);
        let q = s.probed(first, n);
        lemma_probed_cells(s, p, first + n - 1, s.active().cols as int);
        assert forall|r: int, c: int|
            first <= r < first + n && 0 <= c < s.active().cols && (#[trigger] s.shown_cell(
                r,
                c,
            )).attrs.0 & 256 != 256 implies exists|i: int|
            0 <= i < q.runes.len() && (#[trigger] q.runes[i]).1 == (r, c) by {
            if r < first + n - 1 {
                let i = choose|i: int|
                    0 <= i < p.runes.len() && (#[trigger] p.runes[i]).1 == (r, c);
                assert(q.runes[i] == p.runes[i]);
            }
        }
    }
}

/// The cell that covers a place of a probed text is the last one whose character stands at or
/// before it; and the place of a cell is where its character stands.
pub proof fn lemma_cells_of_places(s: ScreenView, p: ProbeView, at: int, cell: (int, int))
    requires
        probe_holds(s, p),
    ensures
        covering(p.runes, at) matches Some(found) ==> exists|i: int|
            0 <= i < p.runes.len() && (#[trigger] p.runes[i]).1 == found && p.runes[i].0 <= at && (i
                + 1 < p.runes.len() ==> p.runes[i + 1].0 > at),
        covering(p.runes, at) is None ==> forall|i: int|
            0 <= i < p.runes.len() ==> (#[trigger] p.runes[i]).0 > at,
        rune_of(p.runes, cell) matches Some(place) ==> p.runes.contains((place, cell)),
        rune_of(p.runes, cell) is None ==> forall|i: int|
            0 <= i < p.runes.len() ==> (#[trigger] p.runes[i]).1 != cell,
{
    lemma_covering(p.runes, at, p.runes.len() as int);
    lemma_rune_of(p.runes, cell);
    assert(p.runes.take(p.runes.len() as int) =~= p.runes);
}

proof fn lemma_covering(runes: Seq<(int, (int, int))>, at: int, n: int)
    requires
        0 <= n <= runes.len(),
        n < runes.len() ==> runes[n].0 > at,
    ensures
        covering(runes.take(n), at) matches Some(found) ==> exists|i: int|
            0 <= i < n && (#[trigger] runes[i]).1 == found && runes[i].0 <= at && (i + 1
                < runes.len() ==> runes[i + 1].0 > at),
        covering(runes.take(n), at) is None ==> forall|i: int|
            0 <= i < n ==> (#[trigger] runes[i]).0 > at,
    decreases n,
{
    if n > 0 {
        let t = runes.take(n);
        assert(t.last() == runes[n - 1]);
        assert(t.drop_last() =~= runes.take(n - 1));
        if runes[n - 1].0 > at {
            lemma_covering(runes, at, n - 1);
        } else {
            assert(runes[n - 1].1 == t.last().1);
        }
    }
}

proof fn lemma_rune_of(runes: Seq<(int, (int, int))>, cell: (int, int))
    ensures
        rune_of(runes, cell) matches Some(place) ==> runes.contains((place, cell)),
        rune_of(runes, cell) is None ==> forall|i: int|
            0 <= i < runes.len() ==> (#[trigger] runes[i]).1 != cell,
    decreases runes.len(),
{
    if runes.len() > 0 {
        let n = runes.len() - 1;
        let init = runes.drop_last();
        lemma_rune_of(init, cell);
        if runes.last().1 == cell {
            assert(runes[n] == (runes.last().0, cell));
        } else {
            if let Some(place) = rune_of(init, cell) {
                let i = choose|i: int| 0 <= i < init.len() && init[i] == (place, cell);
                assert(runes[i] == init[i]);
            } else {
                assert forall|i: int| 0 <= i < runes.len() implies (#[trigger] runes[i]).1
                    != cell by {
                    if i < n {
                        assert(init[i] == runes[i]);
                    }
                }
            }
        }
    }
}

/// The URL at a place of a text: it starts at a scheme, holds the place, is made of URL
/// characters, and no later scheme starts up to the place; what follows it is the end of the
/// text, a character that is in no URL, or closing punctuation before one of these.
pub proof fn lemma_url_found(s: Seq<char>, at: int)
    ensures
        url_at(s, at) matches Some((start, end)) ==> {
            &&& 0 <= start <= at < end <= s.len()
            &&& scheme_at(s, start) > 0 && start + scheme_at(s, start) < end
            &&& forall|k: int| start < k <= at ==> #[trigger] scheme_at(s, k) == 0
            &&& forall|k: int| start <= k < end ==> url_char(#[trigger] s[k])
            &&& !closing_char(s[end - 1])
            &&& end < s.len() ==> !url_char(s[end]) || closing_char(s[end])
        },
{
    if 0 <= at < s.len() && url_char(s[at]) {
        lemma_run(s, at);
        let from = run_start(s, at);
        lemma_scheme(s, from, at);
        if let Some(start) = last_scheme(s, from, at) {
            lemma_closing(s, start, run_end(s, at));
        }
    }
}

proof fn lemma_run(s: Seq<char>, at: int)
    requires
        0 <= at < s.len(),
        url_char(s[at]),
    ensures
        0 <= run_start(s, at) <= at < run_end(s, at) <= s.len(),
        forall|k: int| run_start(s, at) <= k < run_end(s, at) ==> url_char(#[trigger] s[k]),
        run_end(s, at) < s.len() ==> !url_char(s[run_end(s, at)]),
{
    lemma_back(s, at);
    lemma_on(s, at);
}

proof fn lemma_back(s: Seq<char>, i: int)
    requires
        0 <= i <= s.len(),
    ensures
        0 <= run_start(s, i) <= i,
        forall|k: int| run_start(s, i) <= k < i ==> url_char(#[trigger] s[k]),
    decreases i,
{
    if 0 < i && url_char(s[i - 1]) {
        lemma_back(s, i - 1);
    }
}

proof fn lemma_on(s: Seq<char>, i: int)
    requires
        0 <= i <= s.len(),
    ensures
        i <= run_end(s, i) <= s.len(),
        forall|k: int| i <= k < run_end(s, i) ==> url_char(#[trigger] s[k]),
        run_end(s, i) < s.len() ==> !url_char(s[run_end(s, i)]),
        i < s.len() && url_char(s[i]) ==> i < run_end(s, i),
    decreases s.len() - i,
{
    if i < s.len() && url_char(s[i]) {
        lemma_on(s, i + 1);
    }
}

proof fn lemma_scheme(s: Seq<char>, from: int, at: int)
    ensures
        last_scheme(s, from, at) matches Some(start) ==> from <= start <= at && scheme_at(s, start)
            > 0 && forall|k: int| start < k <= at ==> #[trigger] scheme_at(s, k) == 0,
    decreases at - from + 1,
{
    if at >= from && scheme_at(s, at) <= 0 {
        lemma_scheme(s, from, at - 1);
    }
}

proof fn lemma_closing(s: Seq<char>, start: int, end: int)
    requires
        0 <= start <= end <= s.len(),
        end < s.len() ==> !url_char(s[end]),
    ensures
        start <= url_end(s, start, end) <= end,
        url_end(s, start, end) > start ==> !closing_char(s[url_end(s, start, end) - 1]),
        url_end(s, start, end) < s.len() ==> !url_char(s[url_end(s, start, end)]) || closing_char(
            s[url_end(s, start, end)],
        ),
    decreases end - start,
{
    if start < end && closing_char(s[end - 1]) {
        lemma_closing_from(s, start, end - 1);
    }
}

proof fn lemma_closing_from(s: Seq<char>, start: int, end: int)
    requires
        0 <= start <= end < s.len(),
        closing_char(s[end]),
    ensures
        start <= url_end(s, start, end) <= end,
        url_end(s, start, end) > start ==> !closing_char(s[url_end(s, start, end) - 1]),
        closing_char(s[url_end(s, start, end)]),
    decreases end - start,
{
    if start < end && closing_char(s[end - 1]) {
        lemma_closing_from(s, start, end - 1);
    }
}

} // verus!
