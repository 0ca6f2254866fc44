//! Which operation each sequence asks for, and how its parameters are read.
use vstd::prelude::*;
use crate::buffer::least;
use crate::dispatch::{is_edit, is_move};
use crate::screen::ScreenView;
use crate::vt::value_at;

verus! {

/// The screen after a control sequence without parameters or markers.
#[verifier::opaque]
pub open spec fn csi0(s: ScreenView, action: u8) -> ScreenView {
    s.csi_done(Seq::empty(), Seq::empty(), 0, action)
}

/// The screen after a control sequence of one parameter and no markers.
#[verifier::opaque]
pub open spec fn csi(s: ScreenView, n: u16, action: u8) -> ScreenView {
    s.csi_done(seq![seq![n]], Seq::empty(), 0, action)
}

/// The screen after a control sequence of two parameters and no markers.
#[verifier::opaque]
pub open spec fn csi2(s: ScreenView, n: u16, m: u16, action: u8) -> ScreenView {
    s.csi_done(seq![seq![n], seq![m]], Seq::empty(), 0, action)
}

/// The screen after an escape sequence of one byte.
#[verifier::opaque]
pub open spec fn esc(s: ScreenView, byte: u8) -> ScreenView {
    s.esc_done(Seq::empty(), byte)
}

/// The screen after a control byte.
#[verifier::opaque]
pub open spec fn control(s: ScreenView, byte: u8) -> ScreenView {
    s.executed(byte)
}

/// The screen after a private mode was set or reset.
#[verifier::opaque]
pub open spec fn private_mode(s: ScreenView, mode: u16, enable: bool) -> ScreenView {
    s.csi_done(
        seq![seq![mode]],
        Seq::empty(),
        63,
        if enable {
            104
        } else {
            108
        },
    )
}

/// A count of rows, columns or times: missing and zero are one.
pub open spec fn steps(n: u16) -> int {
    if n == 0 {
        1
    } else {
        n as int
    }
}

/// A single parameter is read as it stands.
pub proof fn lemma_one_param(n: u16)
    ensures
        value_at(seq![seq![n]], 0) == n,
        value_at(seq![seq![n]], 1) == 0,
        seq![seq![n]].len() == 1,
{
    assert(seq![seq![n]][0] == seq![n]);
}

/// Two parameters are read as they stand.
pub proof fn lemma_two_params(n: u16, m: u16)
    ensures
        value_at(seq![seq![n], seq![m]], 0) == n,
        value_at(seq![seq![n], seq![m]], 1) == m,
        seq![seq![n], seq![m]].len() == 2,
{
    assert(seq![seq![n], seq![m]][0] == seq![n] && seq![seq![n], seq![m]][1] == seq![m]);
}

/// The moves each final byte asks for, with the count that missing and zero make one.
pub proof fn lemma_csi_moves(s: ScreenView, n: u16, action: u8)
    ensures
        action == 65 ==> csi(s, n, action) == s.with_active(s.active().moved_up(steps(n))),
        action == 66 ==> csi(s, n, action) == s.with_active(s.active().moved_down(steps(n))),
        action == 67 ==> csi(s, n, action) == s.with_active(s.active().moved_forward(steps(n))),
        action == 68 ==> csi(s, n, action) == s.with_active(s.active().moved_back(steps(n))),
        action == 69 ==> csi(s, n, action) == s.with_active(
            s.active().moved_down(steps(n)),
        ).returned(),
        action == 70 ==> csi(s, n, action) == s.with_active(
            s.active().moved_up(steps(n)),
        ).returned(),
        action == 71 || action == 96 ==> csi(s, n, action) == s.with_active(
            s.active().at(
                s.active().cursor.row as int,
                least(steps(n) - 1, s.active().cols - 1),
            ),
        ),
        action == 72 || action == 102 ==> csi(s, n, action) == s.moved_to(steps(n) - 1, 0),
        action == 100 ==> csi(s, n, action) == s.moved_to(
            steps(n) - 1,
            s.active().cursor.col as int,
        ),
        action == 73 ==> csi(s, n, action) == s.tabbed(steps(n)),
        action == 90 ==> csi(s, n, action) == s.with_active(s.active().back_tabbed(steps(n))),
{
    reveal(csi);
    lemma_one_param(n);
    if is_move(action) {
        assert(csi(s, n, action) == s.csi_move(seq![seq![n]], action));
    }
}

/// The edits each final byte asks for.
pub proof fn lemma_csi_edits(s: ScreenView, n: u16, action: u8)
    ensures
        action == 64 ==> csi(s, n, action) == s.with_active(
            s.active().chars_inserted(steps(n), s.blank()),
        ),
        action == 74 ==> csi(s, n, action) == s.display_erased(n),
        action == 75 ==> csi(s, n, action) == s.with_active(
            s.active().line_erased(n, s.blank()),
        ),
        action == 76 ==> csi(s, n, action) == s.lines_inserted(steps(n)),
        action == 77 ==> csi(s, n, action) == s.lines_deleted(steps(n)),
        action == 80 ==> csi(s, n, action) == s.with_active(
            s.active().chars_deleted(steps(n), s.blank()),
        ),
        action == 83 ==> csi(s, n, action) == s.scrolled_up(steps(n)),
        action == 84 ==> csi(s, n, action) == s.scrolled_down(steps(n)),
        action == 88 ==> csi(s, n, action) == s.with_active(
            s.active().chars_erased(steps(n), s.blank()),
        ),
        action == 98 ==> csi(s, n, action) == s.repeated(steps(n)),
{
    reveal(csi);
    lemma_one_param(n);
    if is_edit(action) {
        assert(csi(s, n, action) == s.csi_edit(seq![seq![n]], action));
    }
}

/// The settings of one parameter: the rendition, the region, the tab stops.
pub proof fn lemma_csi_settings(s: ScreenView, n: u16, action: u8)
    ensures
        action == 103 ==> csi(s, n, action) == s.with_active(s.active().stops_cleared(n)),
        action == 109 ==> csi(s, n, action) == (ScreenView {
            pen: s.pen.rendered(seq![seq![n]]),
            ..s
        }),
        action == 114 ==> csi(s, n, action) == s.with_region(steps(n) - 1, s.active().rows - 1),
        action == 110 ==> csi(s, n, action) == s.status_reported(n, 0),
        action == 99 ==> csi(s, n, action) == s.attributes_reported(0),
{
    reveal(csi);
    lemma_one_param(n);
    if action == 103 || action == 109 || action == 114 || action == 110 || action == 99 {
        assert(csi(s, n, action) == s.csi_other(seq![seq![n]], action));
    }
}

/// The sequences that take two parameters: a position, and the scroll region, whose missing
/// or zero bottom is the last row.
pub proof fn lemma_csi_pairs(s: ScreenView, n: u16, m: u16, action: u8)
    ensures
        action == 72 || action == 102 ==> csi2(s, n, m, action) == s.moved_to(
            steps(n) - 1,
            steps(m) - 1,
        ),
        action == 114 ==> csi2(s, n, m, action) == s.with_region(
            steps(n) - 1,
            if m == 0 {
                s.active().rows - 1
            } else {
                m - 1
            },
        ),
{
    reveal(csi2);
    lemma_two_params(n, m);
    if action == 72 || action == 102 {
        assert(csi2(s, n, m, action) == s.csi_move(seq![seq![n], seq![m]], action));
    } else if action == 114 {
        assert(csi2(s, n, m, action) == s.csi_other(seq![seq![n], seq![m]], action));
    }
}

/// A sequence without parameters is the one with a zero, and where the parameter is a count
/// or a position the one with a one; but saving and restoring the cursor are asked for by
/// having no parameters at all.
pub proof fn lemma_missing_parameters(s: ScreenView, action: u8)
    ensures
        is_move(action) || is_edit(action) || action == 103 || action == 114 || action == 110
            ==> csi0(s, action) == csi(s, 0, action),
        is_move(action) || (is_edit(action) && action != 74 && action != 75) || action == 114
            ==> csi0(s, action) == csi(s, 1, action),
        csi0(s, 109) == (ScreenView { pen: s.pen.rendered(Seq::empty()), ..s }),
        csi0(s, 115) == s.cursor_saved(),
        csi0(s, 117) == s.cursor_restored(),
        csi(s, 0, 115) == s && csi(s, 0, 117) == s,
{
    reveal(csi0);
    reveal(csi);
    lemma_one_param(0);
    lemma_one_param(1);
    let none = Seq::<Seq<u16>>::empty();
    if is_move(action) {
        assert(csi0(s, action) == s.csi_move(none, action));
        assert(csi(s, 0, action) == s.csi_move(seq![seq![0u16]], action));
        assert(csi(s, 1, action) == s.csi_move(seq![seq![1u16]], action));
    } else if is_edit(action) {
        assert(csi0(s, action) == s.csi_edit(none, action));
        assert(csi(s, 0, action) == s.csi_edit(seq![seq![0u16]], action));
        assert(csi(s, 1, action) == s.csi_edit(seq![seq![1u16]], action));
    }
}

/// A final byte that stands for nothing changes nothing, and neither does a scroll down with
/// five parameters, which is another sequence.
pub proof fn lemma_unknown_sequences(s: ScreenView, params: Seq<Seq<u16>>, action: u8)
    requires
        !is_move(action) && !is_edit(action),
        action != 99 && action != 103 && action != 104 && action != 108 && action != 109 && action
            != 110 && action != 114 && action != 115 && action != 117,
    ensures
        s.csi_done(params, Seq::empty(), 0, action) == s,
        params.len() == 5 ==> s.csi_done(params, Seq::empty(), 0, 84) == s,
{
}

/// A marker selects another sequence: one that is not known with its marker changes nothing,
/// though its final byte means something without it; nor does one with an intermediate byte.
pub proof fn lemma_unknown_marked(
    s: ScreenView,
    params: Seq<Seq<u16>>,
    marker: u8,
    action: u8,
    inter: u8,
)
    requires
        marker != 0,
        action != 117,
        marker == 63 ==> action != 104 && action != 108 && action != 110,
        marker == 62 ==> action != 99 && action != 109 && action != 113,
        inter != 32 && inter != 33 && inter != 36,
    ensures
        s.csi_done(params, Seq::empty(), marker, action) == s,
        s.csi_done(params, seq![inter], 0, action) == s,
{
    let i = seq![inter];
    assert(i.len() == 1 && i[0] == inter);
    assert(seq![33u8][0] == 33 && seq![36u8][0] == 36 && seq![32u8][0] == 32);
    assert(s.csi_done(params, i, 0, action) == s.csi_intermediate(params, i, 0, action));
    assert(s.csi_done(params, Seq::empty(), marker, action) == s.csi_private(
        params,
        marker,
        action,
    ));
}

/// What each escape sequence of one byte asks for.
pub proof fn lemma_escapes(s: ScreenView, byte: u8)
    ensures
        byte == 55 ==> esc(s, byte) == s.cursor_saved(),
        byte == 56 ==> esc(s, byte) == s.cursor_restored(),
        byte == 68 ==> esc(s, byte) == s.line_fed(),
        byte == 69 ==> esc(s, byte) == s.line_fed().returned(),
        byte == 72 ==> esc(s, byte) == s.with_active(s.active().with_stop(true)),
        byte == 77 ==> esc(s, byte) == s.reverse_indexed(),
        byte == 99 ==> esc(s, byte) == s.hard_reset(),
        byte == 61 ==> esc(s, byte).input.keypad_app && esc(s, byte) == (ScreenView {
            input: esc(s, byte).input,
            ..s
        }),
        byte == 62 ==> !esc(s, byte).input.keypad_app && esc(s, byte) == (ScreenView {
            input: esc(s, byte).input,
            ..s
        }),
        byte == 61 || byte == 62 ==> esc(s, byte).input.app_cursor_keys == s.input.app_cursor_keys
            && esc(s, byte).input.bracketed_paste == s.input.bracketed_paste && esc(
            s,
            byte,
        ).input.focus_events == s.input.focus_events,
        byte != 55 && byte != 56 && byte != 61 && byte != 62 && byte != 68 && byte != 69 && byte
            != 72 && byte != 77 && byte != 99 ==> esc(s, byte) == s,
{
    reveal(esc);
}

/// What each control byte asks for; none of them leaves a character to repeat.
pub proof fn lemma_controls(s: ScreenView, byte: u8)
    ensures
        control(s, byte) == (ScreenView { last_printed: None, ..s.control_done(byte) }),
        byte == 7 ==> s.control_done(byte) == (ScreenView { bell: true, ..s }),
        byte == 8 ==> s.control_done(byte) == s.backspaced(),
        byte == 9 ==> s.control_done(byte) == s.tabbed(1),
        10 <= byte <= 12 ==> s.control_done(byte) == s.line_fed(),
        byte == 13 ==> s.control_done(byte) == s.returned(),
        byte < 7 || byte > 15 ==> s.control_done(byte) == s,
{
    reveal(control);
}

/// A private mode of one parameter is that mode set or reset, and several are each in turn.
pub proof fn lemma_private_modes(s: ScreenView, mode: u16, enable: bool)
    ensures
        private_mode(s, mode, enable) == s.private_mode_set(mode, enable),
{
    reveal(private_mode);
    lemma_one_param(mode);
    reveal_with_fuel(ScreenView::modes_set, 2);
    let params = seq![seq![mode]];
    assert(s.modes_set(params, 1, true, enable) == s.mode_set(mode, true, enable));
    assert(private_mode(s, mode, enable) == s.csi_private(
        params,
        63,
        if enable {
            104
        } else {
            108
        },
    ));
}

} // verus!
