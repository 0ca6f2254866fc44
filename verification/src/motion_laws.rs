//! Where the sequences that move the cursor put it, and what the tab stops, the margins and
//! the saved cursor have to do with it.
use vstd::prelude::*;
use crate::attrs::Attrs;
use crate::buffer::BufferView;
use crate::cell::{Cell, Charset, Cursor, LinkId};
use crate::color::Color;
use crate::edit::{next_stop, prev_stop, stops_back};
use crate::dispatch_laws::{
    control, csi, csi0, csi2, esc, lemma_controls, lemma_csi_moves, lemma_csi_pairs,
    lemma_csi_settings, lemma_escapes, lemma_missing_parameters, lemma_private_modes, private_mode,
    steps,
};
use crate::line_laws::{front_only, lesser};
use crate::screen::{Modes, ScreenView};

verus! {

/// Nothing but the cursor differs, and no wrap is pending.
pub open spec fn cursor_only(s: ScreenView, t: ScreenView, row: int, col: int) -> bool {
    &&& t.active() == (BufferView {
        cursor: Cursor { row: row as usize, col: col as usize, pending_wrap: false },
        ..s.active()
    })
    &&& front_only(s, t)
}

/// The larger of two numbers.
pub open spec fn greater(a: int, b: int) -> int {
    if a >= b {
        a
    } else {
        b
    }
}

/// Up and down (`A`, `B`): the column stays; a margin that the cursor is not past already
/// holds it, and the edge of the screen elsewhere.
pub proof fn lemma_up_and_down(s: ScreenView, n: u16)
    requires
        s.wf(),
    ensures
        ({
            let b = s.active();
            let (row, col) = (b.cursor.row as int, b.cursor.col as int);
            let (top, bottom) = (b.scroll_top as int, b.scroll_bottom as int);
            &&& cursor_only(
                s,
                csi(s, n, 65),
                greater(
                    row - steps(n),
                    if row < top {
                        0
                    } else {
                        top
                    },
                ),
                col,
            )
            &&& cursor_only(
                s,
                csi(s, n, 66),
                lesser(
                    row + steps(n),
                    if row > bottom {
                        b.rows - 1
                    } else {
                        bottom
                    },
                ),
                col,
            )
        }),
{
    lemma_csi_moves(s, n, 65);
    lemma_csi_moves(s, n, 66);
}

/// The lines below and above (`E`, `F`) are the moves down and up, at the first column.
pub proof fn lemma_lines_below_and_above(s: ScreenView, n: u16)
    requires
        s.wf(),
    ensures
        cursor_only(s, csi(s, n, 69), csi(s, n, 66).active().cursor.row as int, 0),
        cursor_only(s, csi(s, n, 70), csi(s, n, 65).active().cursor.row as int, 0),
{
    lemma_csi_moves(s, n, 65);
    lemma_csi_moves(s, n, 66);
    lemma_csi_moves(s, n, 69);
    lemma_csi_moves(s, n, 70);
}

/// Right and left (`C`, `D`): the row stays, and the edges of the screen hold the cursor.
pub proof fn lemma_right_and_left(s: ScreenView, n: u16)
    requires
        s.wf(),
    ensures
        ({
            let b = s.active();
            let (row, col) = (b.cursor.row as int, b.cursor.col as int);
            &&& cursor_only(s, csi(s, n, 67), row, lesser(col + steps(n), b.cols - 1))
            &&& cursor_only(s, csi(s, n, 68), row, greater(col - steps(n), 0))
        }),
{
    lemma_csi_moves(s, n, 67);
    lemma_csi_moves(s, n, 68);
}

/// A column (`G` and the backquote), counted from one.
pub proof fn lemma_to_a_column(s: ScreenView, n: u16)
    requires
        s.wf(),
    ensures
        ({
            let b = s.active();
            let at = lesser(steps(n) - 1, b.cols - 1);
            &&& cursor_only(s, csi(s, n, 71), b.cursor.row as int, at)
            &&& csi(s, n, 96) == csi(s, n, 71)
        }),
{
    lemma_csi_moves(s, n, 71);
    lemma_csi_moves(s, n, 96);
}

/// Where an addressed row lies: counted from zero at the top of the screen, or under origin
/// mode at the top margin and no lower than the bottom one.
pub open spec fn row_addressed(s: ScreenView, row: int) -> int {
    let b = s.active();
    if s.modes.origin_mode {
        lesser(b.scroll_top + row, b.scroll_bottom as int)
    } else {
        lesser(row, b.rows - 1)
    }
}

proof fn lemma_moved_to(s: ScreenView, row: int, col: int)
    requires
        s.wf(),
    ensures
        cursor_only(
            s,
            s.moved_to(row, col),
            row_addressed(s, row),
            lesser(col, s.active().cols - 1),
        ),
{
}

/// A row and a column (`H` and `f`), counted from one; a missing column is the first.
pub proof fn lemma_to_a_position(s: ScreenView, n: u16, m: u16)
    requires
        s.wf(),
    ensures
        ({
            let t = csi2(s, n, m, 72);
            let row = row_addressed(s, steps(n) - 1);
            &&& cursor_only(s, t, row, lesser(steps(m) - 1, s.active().cols - 1))
            &&& csi2(s, n, m, 102) == t
            &&& cursor_only(s, csi(s, n, 72), row, 0)
        }),
{
    lemma_csi_moves(s, n, 72);
    lemma_csi_pairs(s, n, m, 72);
    lemma_csi_pairs(s, n, m, 102);
    lemma_moved_to(s, steps(n) - 1, steps(m) - 1);
    lemma_moved_to(s, steps(n) - 1, 0);
}

/// A row alone (`d`), counted from one, keeps the column.
pub proof fn lemma_to_a_row(s: ScreenView, n: u16)
    requires
        s.wf(),
    ensures
        cursor_only(
            s,
            csi(s, n, 100),
            row_addressed(s, steps(n) - 1),
            s.active().cursor.col as int,
        ),
{
    lemma_csi_moves(s, n, 100);
    lemma_moved_to(s, steps(n) - 1, s.active().cursor.col as int);
}

/// A carriage return and a backspace.
pub proof fn lemma_return_and_backspace(s: ScreenView)
    requires
        s.wf(),
    ensures
        ({
            let u = ScreenView { last_printed: None, ..s };
            let b = s.active();
            &&& cursor_only(u, control(s, 13), b.cursor.row as int, 0)
            &&& cursor_only(
                u,
                control(s, 8),
                b.cursor.row as int,
                greater(b.cursor.col - 1, 0),
            )
        }),
{
    lemma_controls(s, 13);
    lemma_controls(s, 8);
}

/// The remaining control bytes: the bell is remembered, the two shifts choose the character
/// set, and any other byte does nothing. None leaves a character to repeat.
pub proof fn lemma_other_controls(s: ScreenView, byte: u8)
    requires
        byte < 7 || byte > 15,
    ensures
        ({
            let u = ScreenView { last_printed: None, ..s };
            &&& control(s, byte) == u
            &&& control(s, 7) == (ScreenView { bell: true, ..u })
            &&& control(s, 14).charsets.gl_is_g1 && control(s, 14).charsets.g0 == s.charsets.g0
                && control(s, 14).charsets.g1 == s.charsets.g1
            &&& control(s, 14) == (ScreenView { charsets: control(s, 14).charsets, ..u })
            &&& !control(s, 15).charsets.gl_is_g1 && control(s, 15).charsets.g0 == s.charsets.g0
                && control(s, 15).charsets.g1 == s.charsets.g1
            &&& control(s, 15) == (ScreenView { charsets: control(s, 15).charsets, ..u })
        }),
{
    reveal(control);
}

// ---- tab stops ----------------------------------------------------------------------------------

/// A tab goes to the next stop right of the cursor, or to the last column where there is
/// none before it.
pub proof fn lemma_tab(s: ScreenView)
    requires
        s.wf(),
    ensures
        ({
            let b = s.active();
            let t = control(s, 9);
            let to = t.active().cursor.col as int;
            &&& cursor_only(ScreenView { last_printed: None, ..s }, t, b.cursor.row as int, to)
            &&& to < b.cols
            &&& b.cursor.col < to || to == b.cols - 1
            &&& to == b.cols - 1 || b.tabs[to]
            &&& forall|j: int| b.cursor.col < j < to ==> !#[trigger] b.tabs[j]
            &&& csi(s, 1, 73) == (ScreenView { last_printed: s.last_printed, ..t })
        }),
{
    let b = s.active();
    lemma_csi_moves(s, 1, 73);
    lemma_controls(s, 9);
    lemma_next_stop(b.tabs, b.cols as int, b.cursor.col + 1);
    lemma_tabbed_once(s);
}

proof fn lemma_tabbed_once(s: ScreenView)
    ensures
        s.tabbed(1) == s.with_active(s.active().tabbed()),
{
    assert(s.tabbed(0) == s);
}

proof fn lemma_next_stop(tabs: Seq<bool>, cols: int, c: int)
    requires
        0 <= c <= cols <= tabs.len(),
    ensures
        ({
            let k = next_stop(tabs, cols, c);
            &&& c <= k <= cols
            &&& k == cols || tabs[k]
            &&& forall|j: int| c <= j < k ==> !#[trigger] tabs[j]
        }),
    decreases cols - c,
{
    if c < cols && !tabs[c] {
        lemma_next_stop(tabs, cols, c + 1);
    }
}

/// Several tabs forward (`I`) are as many tabs.
pub proof fn lemma_tabs(s: ScreenView, n: u16)
    requires
        n < u16::MAX,
    ensures
        n >= 1 ==> csi(s, (n + 1) as u16, 73) == csi(csi(s, n, 73), 1, 73),
{
    if n >= 1 {
        let t = csi(s, n, 73);
        lemma_csi_moves(s, n, 73);
        lemma_csi_moves(t, 1, 73);
        lemma_csi_moves(s, (n + 1) as u16, 73);
        lemma_tabbed_once(t);
        assert(s.tabbed(n + 1) == t.with_active(t.active().tabbed()));
    }
}

/// A tab back (`Z`) goes to the next stop left of the cursor, or to the first column where
/// there is none.
pub proof fn lemma_back_tab(s: ScreenView)
    requires
        s.wf(),
    ensures
        ({
            let b = s.active();
            let t = csi(s, 1, 90);
            let to = t.active().cursor.col as int;
            &&& cursor_only(s, t, b.cursor.row as int, to)
            &&& to < b.cursor.col || (to == 0 && b.cursor.col == 0)
            &&& to == 0 || b.tabs[to]
            &&& forall|j: int| to < j < b.cursor.col ==> !#[trigger] b.tabs[j]
        }),
{
    let b = s.active();
    lemma_csi_moves(s, 1, 90);
    reveal_with_fuel(stops_back, 2);
    if b.cursor.col > 0 {
        lemma_prev_stop(b.tabs, b.cursor.col - 1);
    }
}

/// Several tabs back are as many tabs back.
pub proof fn lemma_back_tabs(s: ScreenView, n: u16)
    requires
        s.wf(),
        1 <= n < u16::MAX,
    ensures
        csi(s, (n + 1) as u16, 90) == csi(csi(s, 1, 90), n, 90),
{
    let b = s.active();
    let t = csi(s, 1, 90);
    lemma_csi_moves(s, 1, 90);
    lemma_csi_moves(s, (n + 1) as u16, 90);
    lemma_csi_moves(t, n, 90);
    lemma_stops_back(b.tabs, b.cursor.col as int, n + 1);
    let c = b.back_tabbed(1);
    assert(t.active() == c);
    assert(b.back_tabbed(n + 1) == c.back_tabbed(n as int));
}

proof fn lemma_stops_back(tabs: Seq<bool>, col: int, n: int)
    requires
        0 <= col <= tabs.len(),
        n >= 1,
    ensures
        0 <= stops_back(tabs, col, n) <= col,
        0 <= stops_back(tabs, col, 1) <= col,
        stops_back(tabs, col, n) == stops_back(tabs, stops_back(tabs, col, 1), n - 1),
    decreases n,
{
    reveal_with_fuel(stops_back, 2);
    if col > 0 {
        lemma_prev_stop(tabs, col - 1);
        if n > 1 {
            lemma_stops_back(tabs, prev_stop(tabs, col - 1), n - 1);
        }
    }
}

proof fn lemma_prev_stop(tabs: Seq<bool>, c: int)
    requires
        0 <= c < tabs.len(),
    ensures
        ({
            let k = prev_stop(tabs, c);
            &&& 0 <= k <= c
            &&& k == 0 || tabs[k]
            &&& forall|j: int| k < j <= c ==> !#[trigger] tabs[j]
        }),
    decreases c,
{
    if c > 0 && !tabs[c] {
        lemma_prev_stop(tabs, c - 1);
    }
}

/// A stop is set in the cursor's column (`ESC H`), and cleared there (`g`, or `g` with 0); `g`
/// with 3 clears every stop, and with any other number none.
pub proof fn lemma_tab_stops(s: ScreenView, mode: u16)
    requires
        s.wf(),
    ensures
        ({
            let b = s.active();
            let t = esc(s, 72);
            let u = csi(s, mode, 103);
            &&& front_only(s, t) && front_only(s, u)
            &&& t.active() == (BufferView { tabs: t.active().tabs, ..b })
            &&& u.active() == (BufferView { tabs: u.active().tabs, ..b })
            &&& t.active().tabs.len() == b.tabs.len() && u.active().tabs.len() == b.tabs.len()
            &&& forall|j: int|
                0 <= j < b.tabs.len() ==> #[trigger] t.active().tabs[j] == (b.tabs[j] || j
                    == b.cursor.col)
            &&& forall|j: int|
                0 <= j < b.tabs.len() ==> #[trigger] u.active().tabs[j] == (b.tabs[j] && !(mode == 3
                    || (mode == 0 && j == b.cursor.col)))
            &&& csi0(s, 103) == csi(s, 0, 103)
        }),
{
    lemma_csi_settings(s, mode, 103);
    lemma_missing_parameters(s, 103);
    lemma_escapes(s, 72);
}

// ---- the margins --------------------------------------------------------------------------------

proof fn lemma_with_region(s: ScreenView, top: int, bottom: int)
    requires
        s.wf(),
        top >= 0,
        bottom >= 0,
    ensures
        ({
            let b = s.active();
            let t = s.with_region(top, bottom);
            let c = t.active();
            let low = lesser(bottom, b.rows - 1);
            &&& if top < low {
                c.scroll_top == top && c.scroll_bottom == low
            } else {
                c.scroll_top == 0 && c.scroll_bottom == b.rows - 1
            }
            &&& c.cursor == (Cursor {
                row: if s.modes.origin_mode {
                    c.scroll_top
                } else {
                    0
                },
                col: 0,
                pending_wrap: false,
            })
            &&& c == (BufferView {
                scroll_top: c.scroll_top,
                scroll_bottom: c.scroll_bottom,
                cursor: c.cursor,
                ..b
            })
            &&& front_only(s, t)
        }),
{
}

/// The scroll region (`r`): from the first row asked for to the last, both counted from one;
/// a missing or zero bottom, or one past the screen, is the last row. A region of fewer than
/// two rows is the whole screen. The cursor goes home, which under origin mode is the top
/// margin.
pub proof fn lemma_scroll_region(s: ScreenView, n: u16, m: u16)
    requires
        s.wf(),
    ensures
        ({
            let b = s.active();
            let t = csi2(s, n, m, 114);
            let c = t.active();
            let top = steps(n) - 1;
            let bottom = if m == 0 {
                b.rows - 1
            } else {
                lesser(m - 1, b.rows - 1)
            };
            &&& if top < bottom {
                c.scroll_top == top && c.scroll_bottom == bottom
            } else {
                c.scroll_top == 0 && c.scroll_bottom == b.rows - 1
            }
            &&& c.cursor == (Cursor {
                row: if s.modes.origin_mode {
                    c.scroll_top
                } else {
                    0
                },
                col: 0,
                pending_wrap: false,
            })
            &&& c == (BufferView {
                scroll_top: c.scroll_top,
                scroll_bottom: c.scroll_bottom,
                cursor: c.cursor,
                ..b
            })
            &&& front_only(s, t)
            &&& csi(s, n, 114) == csi2(s, n, 0, 114)
            &&& csi0(s, 114) == csi(s, 1, 114)
        }),
{
    let b = s.active();
    let top = steps(n) - 1;
    let bottom = if m == 0 {
        b.rows - 1
    } else {
        m - 1
    };
    lemma_with_region(s, top, bottom);
    lemma_csi_pairs(s, n, m, 114);
    lemma_csi_pairs(s, n, 0, 114);
    lemma_csi_settings(s, n, 114);
    lemma_missing_parameters(s, 114);
}

/// Origin mode, set or reset, sends the cursor home: to the top margin, or to the top of the
/// screen.
pub proof fn lemma_origin_mode(s: ScreenView, enable: bool)
    requires
        s.wf(),
    ensures
        ({
            let b = s.active();
            let t = private_mode(s, 6, enable);
            &&& t.modes == (Modes { origin_mode: enable, ..s.modes })
            &&& cursor_only(
                ScreenView { modes: t.modes, ..s },
                t,
                if enable {
                    b.scroll_top as int
                } else {
                    0
                },
                0,
            )
        }),
{
    lemma_private_modes(s, 6, enable);
    reveal(ScreenView::origin_set);
}

// ---- the saved cursor ---------------------------------------------------------------------------

/// Saving (`ESC 7`, and `s` without parameters) remembers the cursor, the pen, the origin mode
/// and the character sets of the screen in front, and changes nothing else.
pub proof fn lemma_save(s: ScreenView)
    ensures
        ({
            let t = esc(s, 55);
            &&& t.active().saved matches Some(v)
            &&& v.cursor == s.active().cursor && v.pen == s.pen && v.origin == s.modes.origin_mode
                && v.charsets == s.charsets
            &&& t.active() == (BufferView { saved: t.active().saved, ..s.active() })
            &&& front_only(s, t)
            &&& csi0(s, 115) == t
        }),
{
    lemma_escapes(s, 55);
    lemma_missing_parameters(s, 115);
}

/// Restoring (`ESC 8`, and `u` without parameters) puts the saved cursor back, held on the
/// screen, and the rest of what was saved; where nothing was it sends the cursor home. What
/// was saved stays saved.
pub proof fn lemma_restore(s: ScreenView)
    requires
        s.wf(),
    ensures
        ({
            let b = s.active();
            let t = esc(s, 56);
            let c = t.active();
            &&& match b.saved {
                Some(v) => {
                    &&& c == (BufferView {
                        cursor: Cursor {
                            row: lesser(v.cursor.row as int, b.rows - 1) as usize,
                            col: lesser(v.cursor.col as int, b.cols - 1) as usize,
                            pending_wrap: v.cursor.pending_wrap,
                        },
                        ..b
                    })
                    &&& t.pen == v.pen && t.charsets == v.charsets
                    &&& t.modes == (Modes { origin_mode: v.origin, ..s.modes })
                    &&& front_only(
                        ScreenView { pen: v.pen, charsets: v.charsets, modes: t.modes, ..s },
                        t,
                    )
                },
                None => cursor_only(
                    s,
                    t,
                    if s.modes.origin_mode {
                        b.scroll_top as int
                    } else {
                        0
                    },
                    0,
                ),
            }
            &&& csi0(s, 117) == t
        }),
{
    lemma_escapes(s, 56);
    lemma_missing_parameters(s, 117);
}

/// The alignment pattern (`ESC # 8`): every cell a bare capital E, the whole screen the scroll
/// region, the cursor at the top left.
pub proof fn lemma_alignment_pattern(s: ScreenView)
    requires
        s.wf(),
    ensures
        ({
            let b = s.active();
            let t = s.esc_done(seq![35u8], 56);
            let c = t.active();
            &&& c.lines.len() == b.rows
            &&& forall|i: int|
                0 <= i < b.rows ==> (#[trigger] c.lines[i]).cells.len() == b.cols
                    && c.lines[i].marks.len() == 0 && !c.lines[i].wrapped
            &&& forall|i: int, j: int|
                0 <= i < b.rows && 0 <= j < b.cols ==> #[trigger] c.lines[i].cells[j] == (Cell {
                    rune: 'E',
                    fg: Color::Default,
                    bg: Color::Default,
                    attrs: Attrs(0),
                    link: LinkId(0),
                })
            &&& c == (BufferView {
                lines: c.lines,
                scroll_top: 0,
                scroll_bottom: (b.rows - 1) as usize,
                cursor: Cursor { row: 0, col: 0, pending_wrap: false },
                ..b
            })
            &&& front_only(s, t)
        }),
{
}

/// The character sets: `(` designates the first and `)` the second, each as line drawing by a
/// zero and as ASCII by anything else.
pub proof fn lemma_designations(s: ScreenView, byte: u8)
    ensures
        ({
            let set = if byte == 48 {
                Charset::DecSpecialGraphics
            } else {
                Charset::Ascii
            };
            let t = s.esc_done(seq![40u8], byte);
            let u = s.esc_done(seq![41u8], byte);
            &&& t.charsets.g0 == set && t.charsets.g1 == s.charsets.g1 && t.charsets.gl_is_g1
                == s.charsets.gl_is_g1
            &&& t == (ScreenView { charsets: t.charsets, ..s })
            &&& u.charsets.g1 == set && u.charsets.g0 == s.charsets.g0 && u.charsets.gl_is_g1
                == s.charsets.gl_is_g1
            &&& u == (ScreenView { charsets: u.charsets, ..s })
        }),
{
    assert(seq![40u8][0] == 40 && seq![41u8][0] == 41);
}

} // verus!
