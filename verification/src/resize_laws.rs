//! What a resize carries across: the line at the top of a scrolled view, the cursor and the
//! saved one, the prompt marks, and the cells of a screen that does not rewrap.
use vstd::prelude::*;
use crate::buffer::{side, BufferView, DEFAULT_SCROLLBACK, MAX_SIDE};
use crate::cell::{narrow_cell, Cell, Cursor};
use crate::ids::AbsRow;
use crate::line_laws::{lesser, space_on};
use crate::color::Color;
use crate::reflow::{
    kept_count, lemma_reflowed_wf, logical_lines, reflow_lines, reflow_map, reflow_remap,
    reflow_stream, reflow_top, reflowed, row_origins, LineView, RemapView,
};
use crate::reflow_laws::lemma_reflow_follows_cells;
use crate::row::RowView;
use crate::screen::{Prompt, ScreenView};
use crate::screen_resize::{idle_prompt, prompts_moved};

verus! {

/// The remap a change of width comes with.
pub open spec fn remap_of(s: ScreenView, cols: usize, rows: usize) -> RemapView {
    reflow_remap(s.primary, side(cols), side(rows), s.frozen_from())
}

/// A change of the width of a screen, with every size and count of rows inside the machine's.
pub open spec fn new_width(s: ScreenView, cols: usize, rows: usize) -> bool {
    let b = s.primary;
    let stream = reflow_stream(b, side(cols) as int, s.frozen_from());
    &&& s.wf()
    &&& side(cols) != b.cols
    &&& cols <= MAX_SIDE
    &&& rows + DEFAULT_SCROLLBACK < MAX_SIDE
    &&& rows + b.scrollback_limit < MAX_SIDE
    &&& b.stream().len() <= usize::MAX
    &&& stream.len() <= usize::MAX
    &&& b.evicted + b.stream().len() + stream.len() <= u64::MAX
}

/// A cell with something in it that the new width has room for.
pub open spec fn keeps_its_place(cell: Cell, col: int, cols: usize) -> bool {
    cell != Cell::blank() && (col + 1 < side(cols) || col < side(cols) && narrow_cell(cell)) && (
    side(cols) >= 2 || narrow_cell(cell))
}

/// Where the history of a reflowed buffer ends and its screen begins.
proof fn lemma_history_end(b: BufferView, cols: usize, rows: usize, frozen_from: int)
    requires
        b.wf(),
        0 <= frozen_from,
        1 <= cols <= MAX_SIDE,
        1 <= rows,
        rows + b.scrollback_limit <= MAX_SIDE,
        b.evicted + b.stream().len() + reflow_stream(b, cols as int, frozen_from).len() <= u64::MAX,
    ensures
        ({
            let t = reflowed(b, cols, rows, frozen_from);
            let top = reflow_top(b, cols as int, rows as int, frozen_from);
            &&& b.evicted + top == t.evicted + t.scrollback.len()
            &&& b.evicted <= t.evicted
            &&& t.rows == rows && t.lines.len() == rows
            &&& reflow_map(b, cols as int, frozen_from).evicted == b.evicted
        }),
{
    reveal(reflow_map);
    lemma_reflowed_wf(b, cols, rows, frozen_from);
    let stream = reflow_stream(b, cols as int, frozen_from);
    let top = reflow_top(b, cols as int, rows as int, frozen_from);
    let head = Seq::<RowView>::empty() + stream.take(top);
    assert(head.len() == top);
}

/// A scrolled-up view stays on its text across a change of width. The line shown first, where
/// its first column holds something, is shown first again as long as it lies in the new
/// history; where it now lies on the live screen the view is at the bottom, and where it was
/// pushed out the view shows the oldest line there is.
pub proof fn lemma_view_keeps_its_line(s: ScreenView, cols: usize, rows: usize)
    requires
        new_width(s, cols, rows),
        !s.on_alt,
        s.view_offset > 0,
        s.shown_row(0) matches Some(r) && keeps_its_place(r.cells[0], 0, cols),
    ensures
        ({
            let t = s.resized(cols, rows);
            let end = t.primary.evicted + t.primary.scrollback.len();
            match remap_of(s, cols, rows).moved(s.row_id(0), 0) {
                Some((to, col)) => if to.0 < end {
                    &&& t.row_id(0) == to
                    &&& t.shown_row(0) matches Some(r) && r.cells[col]
                        == s.shown_row(0)->0.cells[0]
                    &&& t.view_offset > 0
                } else {
                    t.view_offset == 0
                },
                None => t.view_offset == t.primary.scrollback.len(),
            }
        }),
{
    let (c, r) = (side(cols), side(rows));
    let b = s.primary;
    let f = s.frozen_from();
    let t = s.resized(cols, rows);
    assert(t.primary == reflowed(b, c, r, f) && t.view_offset == crate::reflow::reflow_view(
        b,
        c,
        r,
        s.offset(),
        f,
    ) as usize && !t.on_alt) by {
        reveal(ScreenView::primary_resized);
    }
    let at = b.scrollback.len() - s.view_offset;
    let abs = s.row_id(0);
    assert(abs == AbsRow((b.evicted + at) as u64));
    assert(b.row_of(abs) == Some(b.stream()[at]));
    lemma_reflow_follows_cells(b, c, r, f, abs, 0);
    lemma_reflowed_wf(b, c, r, f);
    lemma_history_end(b, c, r, f);
    let map = remap_of(s, cols, rows);
    let (k, d) = map.place(at, 0)->0;
    let top = reflow_top(b, c as int, r as int, f);
    assert(map.place(at, 0) == reflow_map(b, c as int, f).place(at, 0));
    let end = t.primary.evicted + t.primary.scrollback.len();
    assert(end == b.evicted + top);
    match map.moved(abs, 0) {
        Some((to, col)) => {
            if to.0 < end {
                assert(k < top);
                assert(t.view_offset == top - k);
                assert(t.top_index() == t.primary.scrollback.len() - (top - k));
                assert(t.row_id(0) == to);
                let i = t.top_index();
                assert(t.primary.row_of(to) == Some(t.primary.stream()[i]));
                assert(t.shown_row(0) == Some(t.primary.stream()[i]));
            } else {
                assert(k >= top);
            }
        },
        None => {
            assert(b.evicted + k < t.primary.evicted);
        },
    }
}

/// The cursor stays on the character it is on across a change of width.
pub proof fn lemma_cursor_keeps_its_cell(s: ScreenView, cols: usize, rows: usize)
    requires
        new_width(s, cols, rows),
        keeps_its_place(
            s.primary.cell_at(s.primary.cursor.row as int, s.primary.cursor.col as int),
            s.primary.cursor.col as int,
            cols,
        ),
    ensures
        ({
            let b = s.primary;
            let t = s.resized(cols, rows).primary;
            &&& t.cell_at(t.cursor.row as int, t.cursor.col as int) == b.cell_at(
                b.cursor.row as int,
                b.cursor.col as int,
            )
            &&& t.cursor.pending_wrap == (b.cursor.pending_wrap && t.cursor.col + 1 == t.cols)
        }),
{
    let (c, r) = (side(cols), side(rows));
    let b = s.primary;
    let f = s.frozen_from();
    assert(s.resized(cols, rows).primary == reflowed(b, c, r, f)) by {
        reveal(ScreenView::primary_resized);
    }
    let t = reflowed(b, c, r, f);
    let at = b.scrollback.len() + b.cursor.row;
    let col = b.cursor.col as int;
    let abs = AbsRow((b.evicted + at) as u64);
    assert(b.row_of(abs) == Some(b.stream()[at as int]));
    assert(b.stream()[at as int] == b.lines[b.cursor.row as int]);
    lemma_reflow_follows_cells(b, c, r, f, abs, col);
    lemma_reflowed_wf(b, c, r, f);
    lemma_history_end(b, c, r, f);
    let map = remap_of(s, cols, rows);
    let (k, d) = map.place(at as int, col)->0;
    assert(map.place(at as int, col) == reflow_map(b, c as int, f).place(at as int, col));
    let top = reflow_top(b, c as int, r as int, f);
    let stream = reflow_stream(b, c as int, f);
    lemma_place_in_stream(s, cols, rows, at as int, col);
    assert(top <= k < top + r);
    let to = (map.moved(abs, col)->0).0;
    assert(t.row_of(to) is Some);
    assert(t.stream()[k - (t.evicted - b.evicted)] == t.lines[k - top]);
}

/// A cell that keeps its place is on a row of the new stream.
proof fn lemma_place_in_stream(s: ScreenView, cols: usize, rows: usize, at: int, col: int)
    requires
        new_width(s, cols, rows),
        0 <= at < s.primary.stream().len(),
        0 <= col < s.primary.cols,
        keeps_its_place(s.primary.stream()[at].cells[col], col, cols),
    ensures
        ({
            let stream = reflow_stream(s.primary, side(cols) as int, s.frozen_from());
            remap_of(s, cols, rows).place(at, col) matches Some((k, d)) && 0 <= k < stream.len()
                && 0 <= d < side(cols)
        }),
{
    let c = side(cols) as int;
    crate::reflow_laws::lemma_placed(s.primary, c, s.frozen_from(), at, col);
    let map = remap_of(s, cols, rows);
    assert(map.place(at, col) == reflow_map(s.primary, c, s.frozen_from()).place(at, col));
}

/// The saved cursor goes where the remap puts its cell: on that row of the screen while it is
/// on the screen, at the nearest edge where it is not. What is saved beside the position stays.
pub proof fn lemma_saved_cursor_is_carried(s: ScreenView, cols: usize, rows: usize)
    requires
        new_width(s, cols, rows),
        s.primary.saved matches Some(v) && v.cursor.row < s.primary.rows && v.cursor.col
            < s.primary.cols && keeps_its_place(
            s.primary.cell_at(v.cursor.row as int, v.cursor.col as int),
            v.cursor.col as int,
            cols,
        ),
    ensures
        ({
            let b = s.primary;
            let t = s.resized(cols, rows).primary;
            let v = b.saved->0;
            let start = t.evicted + t.scrollback.len();
            let abs = AbsRow((b.evicted + b.scrollback.len() + v.cursor.row) as u64);
            &&& t.saved matches Some(w)
            &&& w.pen == v.pen && w.origin == v.origin && w.charsets == v.charsets
            &&& match remap_of(s, cols, rows).moved(abs, v.cursor.col as int) {
                Some((to, col)) => if start <= to.0 < start + t.rows {
                    &&& w.cursor.row == to.0 - start && w.cursor.col == col
                    &&& t.cell_at(w.cursor.row as int, w.cursor.col as int) == b.cell_at(
                        v.cursor.row as int,
                        v.cursor.col as int,
                    )
                } else if to.0 < start {
                    w.cursor.row == 0
                } else {
                    w.cursor.row == t.rows - 1
                },
                None => w.cursor.row == 0,
            }
        }),
{
    let (c, r) = (side(cols), side(rows));
    let b = s.primary;
    let f = s.frozen_from();
    assert(s.resized(cols, rows).primary == reflowed(b, c, r, f)) by {
        reveal(ScreenView::primary_resized);
    }
    let t = reflowed(b, c, r, f);
    let v = b.saved->0;
    let at = b.scrollback.len() + v.cursor.row;
    let col = v.cursor.col as int;
    let abs = AbsRow((b.evicted + at) as u64);
    assert(b.row_of(abs) == Some(b.stream()[at as int]));
    assert(b.stream()[at as int] == b.lines[v.cursor.row as int]);
    lemma_reflow_follows_cells(b, c, r, f, abs, col);
    lemma_reflowed_wf(b, c, r, f);
    lemma_history_end(b, c, r, f);
    lemma_place_in_stream(s, cols, rows, at as int, col);
    let map = remap_of(s, cols, rows);
    let (k, d) = map.place(at as int, col)->0;
    assert(map.place(at as int, col) == reflow_map(b, c as int, f).place(at as int, col));
    let top = reflow_top(b, c as int, r as int, f);
    if top <= k < top + r {
        let to = (map.moved(abs, col)->0).0;
        assert(t.row_of(to) is Some);
        assert(t.stream()[k - (t.evicted - b.evicted)] == t.lines[k - top]);
    }
}

/// Each prompt mark follows its row, with its output and its exit; a mark whose row is gone
/// goes, and no other appears.
pub proof fn lemma_prompts_are_carried(s: ScreenView, cols: usize, rows: usize)
    requires
        s.wf(),
        !s.on_alt,
        side(cols) != s.primary.cols,
    ensures
        ({
            let t = s.resized(cols, rows);
            let map = remap_of(s, cols, rows);
            &&& forall|i: int|
                0 <= i < s.prompts.len() && map.moved((#[trigger] s.prompts[i]).row, 0) is Some
                    ==> t.prompts.contains(carried(map, s.prompts[i]))
            &&& forall|j: int|
                0 <= j < t.prompts.len() ==> exists|i: int|
                    0 <= i < s.prompts.len() && map.moved((#[trigger] s.prompts[i]).row, 0) is Some
                        && carried(map, s.prompts[i]) == #[trigger] t.prompts[j]
        }),
{
    reveal(ScreenView::primary_resized);
    lemma_carried(s.prompts, remap_of(s, cols, rows));
}

/// A prompt mark where the remap puts its rows.
pub open spec fn carried(map: RemapView, p: Prompt) -> Prompt {
    Prompt {
        row: (map.moved(p.row, 0)->0).0,
        output: match p.output {
            Some(o) => match map.moved(o, 0) {
                Some((to, _)) => Some(to),
                None => None,
            },
            None => None,
        },
        exit: p.exit,
    }
}

proof fn lemma_carried(prompts: Seq<Prompt>, map: RemapView)
    ensures
        ({
            let moved = prompts_moved(prompts, map);
            &&& forall|i: int|
                0 <= i < prompts.len() && map.moved((#[trigger] prompts[i]).row, 0) is Some
                    ==> moved.contains(carried(map, prompts[i]))
            &&& forall|j: int|
                0 <= j < moved.len() ==> exists|i: int|
                    0 <= i < prompts.len() && map.moved((#[trigger] prompts[i]).row, 0) is Some
                        && carried(map, prompts[i]) == #[trigger] moved[j]
        }),
    decreases prompts.len(),
{
    if prompts.len() > 0 {
        let init = prompts.drop_last();
        let before = prompts_moved(init, map);
        let moved = prompts_moved(prompts, map);
        lemma_carried(init, map);
        let n = prompts.len() - 1;
        assert forall|i: int|
            0 <= i < prompts.len() && map.moved((#[trigger] prompts[i]).row, 0) is Some implies moved.contains(
        carried(map, prompts[i])) by {
            if i < n {
                assert(init[i] == prompts[i]);
                let j = choose|j: int| 0 <= j < before.len() && before[j] == carried(map, init[i]);
                assert(moved[j] == before[j]);
            } else {
                assert(moved[moved.len() - 1] == carried(map, prompts[i]));
            }
        }
        assert forall|j: int| 0 <= j < moved.len() implies exists|i: int|
            0 <= i < prompts.len() && map.moved((#[trigger] prompts[i]).row, 0) is Some && carried(
                map,
                prompts[i],
            ) == #[trigger] moved[j] by {
            if j < before.len() {
                assert(moved[j] == before[j]);
                let i = choose|i: int|
                    0 <= i < init.len() && map.moved((#[trigger] init[i]).row, 0) is Some && carried(
                        map,
                        init[i],
                    ) == before[j];
                assert(init[i] == prompts[i]);
            } else {
                assert(moved[j] == carried(map, prompts[n]));
            }
        }
    }
}

/// The rows a rewrap leaves alone start at the last prompt whose command has printed nothing,
/// but no lower than the cursor; where every command has, none is left alone.
pub proof fn lemma_frozen_rows(s: ScreenView)
    requires
        s.wf(),
    ensures
        ({
            let b = s.primary;
            let n = s.prompts.len() as int;
            let end = b.scrollback.len() + b.rows;
            &&& (forall|i: int| 0 <= i < n ==> (#[trigger] s.prompts[i]).output is Some)
                ==> s.frozen_from() == end
            &&& forall|i: int|
                0 <= i < n && (#[trigger] s.prompts[i]).output is None && (forall|j: int|
                    i < j < n ==> (#[trigger] s.prompts[j]).output is Some) && b.evicted
                    <= s.prompts[i].row.0 && s.prompts[i].row.0 - b.evicted <= usize::MAX
                    ==> s.frozen_from() == lesser(
                    s.prompts[i].row.0 - b.evicted,
                    b.scrollback.len() + b.cursor.row,
                )
        }),
{
    let n = s.prompts.len() as int;
    if forall|i: int| 0 <= i < n ==> (#[trigger] s.prompts[i]).output is Some {
        lemma_idle(s.prompts, -1);
    }
    assert forall|i: int|
        0 <= i < n && (#[trigger] s.prompts[i]).output is None && (forall|j: int|
            i < j < n ==> (#[trigger] s.prompts[j]).output is Some) implies idle_prompt(s.prompts)
        == Some(s.prompts[i].row) by {
        lemma_idle(s.prompts, i);
    }
}

proof fn lemma_idle(prompts: Seq<Prompt>, i: int)
    requires
        -1 <= i < prompts.len(),
        i >= 0 ==> prompts[i].output is None,
        forall|j: int| i < j < prompts.len() ==> (#[trigger] prompts[j]).output is Some,
    ensures
        idle_prompt(prompts) == (if i >= 0 {
            Some(prompts[i].row)
        } else {
            None
        }),
    decreases prompts.len(),
{
    if prompts.len() > 0 {
        let n = prompts.len() - 1;
        if i < n {
            assert(prompts[n].output is Some);
            let init = prompts.drop_last();
            assert forall|j: int| i < j < init.len() implies (#[trigger] init[j]).output is Some by {
                assert(init[j] == prompts[j]);
            }
            lemma_idle(init, i);
        }
    }
}

/// After a change of width the screen shows the end of the text: nothing that keeps its place
/// is let go of below it unless the cursor is on its first row, and no empty row stands below
/// the text while there is history above it.
pub proof fn lemma_screen_shows_the_end(
    s: ScreenView,
    cols: usize,
    rows: usize,
    abs: AbsRow,
    col: int,
)
    requires
        new_width(s, cols, rows),
        s.primary.row_of(abs) matches Some(r) && 0 <= col < s.primary.cols && keeps_its_place(
            r.cells[col],
            col,
            cols,
        ),
    ensures
        ({
            let b = s.primary;
            let t = s.resized(cols, rows).primary;
            let above = t.evicted + t.scrollback.len() - b.evicted;
            let all = reflow_stream(b, side(cols) as int, s.frozen_from());
            &&& t.cursor.row > 0 ==> (remap_of(s, cols, rows).moved(abs, col) matches Some((to, _))
                ==> t.row_of(to) is Some)
            &&& above > 0 ==> above + t.rows <= all.len()
        }),
{
    let (c, r) = (side(cols), side(rows));
    let b = s.primary;
    let f = s.frozen_from();
    assert(s.resized(cols, rows).primary == reflowed(b, c, r, f)) by {
        reveal(ScreenView::primary_resized);
    }
    let t = reflowed(b, c, r, f);
    let at = abs.0 - b.evicted;
    lemma_reflow_follows_cells(b, c, r, f, abs, col);
    lemma_reflowed_wf(b, c, r, f);
    lemma_history_end(b, c, r, f);
    lemma_place_in_stream(s, cols, rows, at, col);
    let map = remap_of(s, cols, rows);
    let (k, d) = map.place(at, col)->0;
    let top = reflow_top(b, c as int, r as int, f);
    let all = reflow_stream(b, c as int, f);
    let index = crate::reflow::reflow_cursor(b, c as int, f).0;
    assert(t.cursor.row == crate::reflow::on_screen(index, top, r as int) as usize);
    if t.cursor.row > 0 {
        assert(index > top);
        assert(top + r >= all.len());
    }
}

/// The rows a rewrap leaves alone keep their columns and follow each other as they did.
pub proof fn lemma_frozen_rows_stay(s: ScreenView, cols: usize, rows: usize, at: int, col: int)
    requires
        new_width(s, cols, rows),
        s.frozen_from() <= at,
        at + 1 < s.primary.stream().len(),
        0 <= col,
    ensures
        ({
            let map = remap_of(s, cols, rows);
            &&& map.place(at, col) matches Some((k, d))
            &&& map.place(at + 1, col) matches Some((l, e))
            &&& l == k + 1
            &&& d == lesser(col, side(cols) - 1) && e == d
        }),
{
    reveal(reflow_map);
    reveal(reflow_stream);
}

/// A rewrap of the whole buffer drops the empty lines at the end, below the cursor's, and no
/// other line.
pub proof fn lemma_trailing_lines_go(b: BufferView, frozen_from: int)
    requires
        b.wf(),
        b.stream().len() <= frozen_from,
    ensures
        ({
            let before = logical_lines(b.stream());
            let after = reflow_lines(b, frozen_from);
            let here = row_origins(b.stream())[b.scrollback.len() + b.cursor.row].0;
            &&& after.len() <= before.len()
            &&& forall|i: int| 0 <= i < after.len() ==> #[trigger] after[i] == before[i]
            &&& after.len() == before.len() || after.len() > here
            &&& forall|i: int|
                after.len() <= i < before.len() ==> (#[trigger] before[i]).cells.len() == 0
            &&& after.len() > 0 && after.len() > here + 1 ==> after[after.len() - 1].cells.len() > 0
        }),
{
    let all = b.stream();
    assert(all.take(all.len() as int) =~= all);
    let before = logical_lines(all);
    let here = row_origins(all)[b.scrollback.len() + b.cursor.row].0;
    lemma_kept(before, before.len() as int, here);
    let n = kept_count(before, before.len() as int, here);
    let after = reflow_lines(b, frozen_from);
    assert(crate::reflow::frozen_at(b, frozen_from) == all.len());
    assert(after == before.take(n));
}

proof fn lemma_kept(lines: Seq<LineView>, keep: int, floor: int)
    requires
        0 <= keep <= lines.len(),
    ensures
        ({
            let n = kept_count(lines, keep, floor);
            &&& 0 <= n <= keep
            &&& n == keep || n > floor
            &&& forall|i: int| n <= i < keep ==> (#[trigger] lines[i]).cells.len() == 0
            &&& n > 0 && n > floor + 1 ==> lines[n - 1].cells.len() > 0
        }),
    decreases keep,
{
    if keep > floor + 1 && keep > 0 && lines[keep - 1].cells.len() == 0 {
        lemma_kept(lines, keep - 1, floor);
    }
}

/// What a resize does not speak of stays: the pen, the modes, the tables, and which screen is
/// in front. A change of height alone brings the view to the bottom.
#[verifier::rlimit(40)]
pub proof fn lemma_resize_keeps_settings(s: ScreenView, cols: usize, rows: usize)
    ensures
        ({
            let t = s.resized(cols, rows);
            &&& t == (ScreenView {
                primary: t.primary,
                alt: t.alt,
                view_offset: t.view_offset,
                epoch: t.epoch,
                prompts: t.prompts,
                ..s
            })
            &&& side(cols) == s.primary.cols ==> t.view_offset == 0
            &&& side(cols) == s.primary.cols && !s.on_alt ==> t.prompts == s.prompts
        }),
{
    let (c, r) = (side(cols), side(rows));
    let p = s.primary_resized(c, r);
    assert(p == (ScreenView {
        primary: p.primary,
        view_offset: p.view_offset,
        prompts: p.prompts,
        ..s
    })) by {
        reveal(ScreenView::primary_resized);
        if c == s.primary.cols {
            assert(p.alt == s.alt);
        } else {
            assert(p.alt == s.alt);
        }
    }
    assert(c == s.primary.cols ==> p.view_offset == 0 && p.prompts == s.prompts) by {
        reveal(ScreenView::primary_resized);
    }
}

/// A change of height alone keeps the cursor in its column of its line: the row it is on is
/// the row it was on, and where there is a history that row keeps its name.
#[verifier::spinoff_prover]
#[verifier::rlimit(60)]
pub proof fn lemma_height_keeps_the_cursor(s: ScreenView, rows: usize)
    requires
        s.wf(),
        rows + DEFAULT_SCROLLBACK < MAX_SIDE,
        rows + s.primary.scrollback_limit < MAX_SIDE,
        s.primary.evicted + s.primary.rows <= u64::MAX,
    ensures
        ({
            let b = s.primary;
            let t = s.resized(b.cols, rows).primary;
            &&& t.rows == side(rows) && t.cols == b.cols && t.lines.len() == side(rows)
            &&& t.cursor.row < t.rows
            &&& t.cursor.col == b.cursor.col && !t.cursor.pending_wrap
            &&& t.lines[t.cursor.row as int] == b.lines[b.cursor.row as int]
            &&& b.scrollback_limit > 0 ==> t.evicted + t.scrollback.len() + t.cursor.row
                == b.evicted + b.scrollback.len() + b.cursor.row
            &&& t.saved == b.saved && t.tabs == b.tabs
        }),
{
    let b = s.primary;
    let h = side(rows);
    let t = s.resized(b.cols, rows).primary;
    assert(t == b.resized(b.cols, h)) by {
        reveal(ScreenView::primary_resized);
    }
    let d = b.rerowed(h);
    assert(b.recolumned(b.cols) == b);
    assert(t.lines == d.lines && t.cursor.row == d.cursor.row);
    if h >= b.rows {
        let pull = lesser(h - b.rows, b.scrollback.len() as int);
        assert(d.cursor.row == b.cursor.row + pull);
        assert(d.lines[b.cursor.row + pull] == b.lines[b.cursor.row as int]);
    } else {
        let excess = b.rows - h;
        let below = b.rows - (b.cursor.row + 1);
        let drop = lesser(excess, below);
        let push = excess - drop;
        assert(d.cursor.row == b.cursor.row - push);
        assert(d.lines[b.cursor.row - push] == b.lines[b.cursor.row as int]);
    }
}

/// New columns have the default stops, one in every eight, and old ones keep theirs.
pub proof fn lemma_new_columns_have_stops(s: ScreenView, cols: usize, rows: usize, j: int)
    requires
        s.wf(),
        0 <= j < s.resized(cols, rows).primary.tabs.len(),
    ensures
        s.resized(cols, rows).primary.tabs[j] == (if j < s.primary.tabs.len() {
            s.primary.tabs[j]
        } else {
            j % 8 == 0
        }),
{
    reveal(ScreenView::primary_resized);
    let (c, r) = (side(cols), side(rows));
    if c == s.primary.cols {
        assert(s.primary.resized(c, r).tabs == s.primary.tabs);
    } else {
        assert(s.resized(cols, rows).primary.tabs == crate::buffer::grown_tabs(
            s.primary.tabs,
            c as int,
        ));
    }
}

/// The alternate screen is cut or padded, never rewrapped: a row keeps its cells within the
/// new width, blank beyond, but for a wide character the edge cuts. A taller screen adds
/// empty rows below; a lower one drops rows below the cursor first and then from the top.
pub proof fn lemma_alternate_is_cut(s: ScreenView, cols: usize, rows: usize)
    requires
        s.wf(),
        cols <= MAX_SIDE,
        rows <= MAX_SIDE,
    ensures
        ({
            let b = s.alt;
            let t = s.resized(cols, rows).alt;
            let (w, h) = (side(cols) as int, side(rows) as int);
            let up = if h < b.cursor.row + 1 {
                b.cursor.row + 1 - h
            } else {
                0
            };
            &&& t.cols == w && t.rows == h && t.lines.len() == h
            &&& t.scrollback.len() == 0
            &&& t.cursor == (Cursor {
                row: (b.cursor.row - up) as usize,
                col: lesser(b.cursor.col as int, w - 1) as usize,
                pending_wrap: false,
            })
            &&& t.scroll_top == 0 && t.scroll_bottom == h - 1
            &&& t.saved == b.saved
            &&& forall|i: int, j: int|
                0 <= i < h && 0 <= j < w ==> #[trigger] t.cell_at(i, j) == (if i + up < b.rows && j
                    < b.cols && !(j == w - 1 && w < b.cols && b.cell_at(i + up, j).attrs.0 & 128
                    == 128) {
                    b.cell_at(i + up, j)
                } else {
                    space_on(Color::Default)
                })
        }),
{
    let b = s.alt;
    let (w, h) = (side(cols), side(rows));
    let t = s.resized(cols, rows).alt;
    assert(t == b.resized(w, h)) by {
        reveal(ScreenView::primary_resized);
    }
    let c = b.recolumned(w);
    let up = if h < b.cursor.row + 1 {
        b.cursor.row + 1 - h
    } else {
        0
    };
    assert(b.scrollback.len() == 0);
    assert forall|i: int| 0 <= i < b.rows implies (#[trigger] b.lines[i]).cells.len() == b.cols by {
        assert(b.lines[i].wf(b.cols as int));
    }
    assert forall|i: int, j: int| 0 <= i < b.rows && 0 <= j < w implies (#[trigger] c.cell_at(i, j))
        == (if j < b.cols && !(j == w - 1 && w < b.cols && b.cell_at(i, j).leader()) {
        b.cell_at(i, j)
    } else {
        Cell::blank()
    }) && c.lines[i].cells.len() == w by {
        if w != b.cols {
            assert(c.lines[i] == b.lines[i].resized(w as int));
        }
    }
    assert(c.lines.len() == b.rows && c.rows == b.rows && c.cursor.row == b.cursor.row);
    let d = c.rerowed(h);
    assert(t.lines == d.lines);
    if h >= b.rows {
        assert(c.scrollback.len() == 0);
        assert forall|i: int| 0 <= i < h implies #[trigger] t.lines[i] == (if i < b.rows {
            c.lines[i]
        } else {
            RowView::filled(w as int, Cell::blank())
        }) by {}
    } else {
        assert forall|i: int| 0 <= i < h implies #[trigger] t.lines[i] == c.lines[i + up] by {}
    }
    assert forall|i: int, j: int| 0 <= i < h && 0 <= j < w implies #[trigger] t.cell_at(i, j) == (if i
        + up < b.rows && j < b.cols && !(j == w - 1 && w < b.cols && b.cell_at(i + up, j).attrs.0
        & 128 == 128) {
        b.cell_at(i + up, j)
    } else {
        space_on(Color::Default)
    }) by {
        if i + up < b.rows {
            assert(t.lines[i] == c.lines[i + up]);
            assert(t.cell_at(i, j) == c.cell_at(i + up, j));
        } else {
            assert(t.lines[i] == RowView::filled(w as int, Cell::blank()));
        }
    }
}

} // verus!
