//! What each mode switches, what the resets and the alternate screen leave, and the bytes of
//! the answers.
use vstd::prelude::*;
use crate::attrs::Attrs;
use crate::buffer::{BufferView, DEFAULT_SCROLLBACK};
use crate::cell::{Charset, Cursor, LinkId};
use crate::codec::{hex_encoded, lemma_hex_round_trip};
use crate::color::Color;
use crate::dispatch_laws::{
    csi, esc, lemma_csi_settings, lemma_escapes, lemma_one_param, lemma_private_modes,
    private_mode,
};
use crate::grapheme::BreakState;
use crate::input::{KittyFlags, ModifyOtherKeys};
use crate::line_laws::{empty_row, front_only};
use crate::mouse::{MouseMode, MouseProtocol};
use crate::query::{capability_replies, capability_reply};
use crate::screen::{
    CursorAppearance, CursorStyle, InputModes, Modes, OutputModes, ScreenView,
};
use crate::text::{decimal, utf8};

verus! {

// ---- the switches -------------------------------------------------------------------------------

/// The private modes that are one switch each change that switch and nothing else: the cursor
/// keys, autowrap, the blink, the cursor, focus events, pastes, synchronized output.
pub proof fn lemma_switches(s: ScreenView, e: bool)
    ensures
        private_mode(s, 1, e) == (ScreenView {
            input: InputModes { app_cursor_keys: e, ..s.input },
            ..s
        }),
        private_mode(s, 7, e) == (ScreenView { modes: Modes { autowrap: e, ..s.modes }, ..s }),
        private_mode(s, 12, e) == (ScreenView {
            cursor_appearance: CursorAppearance { blink: e, ..s.cursor_appearance },
            ..s
        }),
        private_mode(s, 25, e) == (ScreenView {
            output: OutputModes { cursor_visible: e, ..s.output },
            ..s
        }),
        private_mode(s, 1004, e) == (ScreenView {
            input: InputModes { focus_events: e, ..s.input },
            ..s
        }),
        private_mode(s, 2004, e) == (ScreenView {
            input: InputModes { bracketed_paste: e, ..s.input },
            ..s
        }),
        private_mode(s, 2026, e) == (ScreenView {
            output: OutputModes { synchronized: e, ..s.output },
            ..s
        }),
{
    lemma_private_modes(s, 1, e);
    lemma_private_modes(s, 7, e);
    lemma_private_modes(s, 12, e);
    lemma_private_modes(s, 25, e);
    lemma_private_modes(s, 1004, e);
    lemma_private_modes(s, 2004, e);
    lemma_private_modes(s, 2026, e);
}

/// The mouse: each level of reporting replaces the others, resetting any of them turns it
/// off, and the encoding is a switch of its own.
pub proof fn lemma_mouse_modes(s: ScreenView)
    ensures
        private_mode(s, 1000, true) == (ScreenView {
            mouse: MouseMode { protocol: MouseProtocol::Press, sgr: s.mouse.sgr },
            ..s
        }),
        private_mode(s, 1002, true) == (ScreenView {
            mouse: MouseMode { protocol: MouseProtocol::ButtonEvent, sgr: s.mouse.sgr },
            ..s
        }),
        private_mode(s, 1003, true) == (ScreenView {
            mouse: MouseMode { protocol: MouseProtocol::AnyEvent, sgr: s.mouse.sgr },
            ..s
        }),
        private_mode(s, 1000, false).mouse == (MouseMode {
            protocol: MouseProtocol::Off,
            sgr: s.mouse.sgr,
        }),
        private_mode(s, 1002, false) == private_mode(s, 1000, false),
        private_mode(s, 1003, false) == private_mode(s, 1000, false),
        private_mode(s, 1006, true) == (ScreenView {
            mouse: MouseMode { protocol: s.mouse.protocol, sgr: true },
            ..s
        }),
        private_mode(s, 1006, false) == (ScreenView {
            mouse: MouseMode { protocol: s.mouse.protocol, sgr: false },
            ..s
        }),
{
    lemma_private_modes(s, 1000, true);
    lemma_private_modes(s, 1002, true);
    lemma_private_modes(s, 1003, true);
    lemma_private_modes(s, 1006, true);
    lemma_private_modes(s, 1000, false);
    lemma_private_modes(s, 1002, false);
    lemma_private_modes(s, 1003, false);
    lemma_private_modes(s, 1006, false);
}

/// Clustering, switched either way, goes on with no cluster; size reports, switched on, send
/// one; and a number that is no mode changes nothing.
pub proof fn lemma_other_modes(s: ScreenView, e: bool, mode: u16)
    requires
        mode != 1 && mode != 6 && mode != 7 && mode != 12 && mode != 25 && mode != 47 && mode
            != 1047 && mode != 1049 && mode != 1000 && mode != 1002 && mode != 1003 && mode != 1004
            && mode != 1006 && mode != 2004 && mode != 2026 && mode != 2027 && mode != 2048,
    ensures
        private_mode(s, 2027, e) == (ScreenView {
            modes: Modes { grapheme_clustering: e, ..s.modes },
            cluster: BreakState {
                started: false,
                pictograph: false,
                joined: false,
                odd_regional: false,
            },
            cluster_anchor: None,
            ..s
        }),
        private_mode(s, 2048, false) == (ScreenView {
            output: OutputModes { in_band_resize: false, ..s.output },
            ..s
        }),
        private_mode(s, 2048, true).responses == s.responses + size_report(s),
        private_mode(s, 2048, true) == (ScreenView {
            output: OutputModes { in_band_resize: true, ..s.output },
            responses: private_mode(s, 2048, true).responses,
            ..s
        }),
        private_mode(s, mode, e) == s,
{
    lemma_private_modes(s, 2027, e);
    lemma_private_modes(s, 2048, false);
    lemma_private_modes(s, 2048, true);
    lemma_private_modes(s, mode, e);
    reveal(ScreenView::resize_reporting_set);
    lemma_size_text();
    let t = ScreenView { output: OutputModes { in_band_resize: true, ..s.output }, ..s };
    assert(t.active() == s.active());
}

/// The bytes of a size report: rows, columns, and the window's height and width in pixels.
pub open spec fn size_report(s: ScreenView) -> Seq<u8> {
    seq![27u8, 91, 52, 56, 59] + decimal(s.active().rows as nat) + seq![59u8] + decimal(
        s.active().cols as nat,
    ) + seq![59u8] + decimal(s.pixel_size.1 as nat) + seq![59u8] + decimal(s.pixel_size.0 as nat)
        + seq![116u8]
}

/// A text of ASCII characters is its bytes.
pub proof fn lemma_ascii(text: Seq<char>, bytes: Seq<u8>)
    requires
        text.len() == bytes.len(),
        forall|i: int|
            0 <= i < text.len() ==> (#[trigger] text[i]) as int == bytes[i] as int && bytes[i]
                < 128,
    ensures
        utf8(text) == bytes,
{
    assert(vstd::utf8::is_ascii_chars(text));
    vstd::utf8::is_ascii_chars_encode_utf8(text);
    assert forall|i: int| 0 <= i < text.len() implies #[trigger] utf8(text)[i] == bytes[i] by {
        assert(text[i] as u8 == utf8(text)[i]);
    }
    assert(utf8(text) =~= bytes);
}

proof fn lemma_size_text()
    ensures
        utf8("\x1b[48;"@) == seq![27u8, 91, 52, 56, 59],
        utf8(";"@) == seq![59u8],
        utf8("t"@) == seq![116u8],
{
    reveal_strlit("\x1b[48;");
    reveal_strlit(";");
    reveal_strlit("t");
    lemma_ascii("\x1b[48;"@, seq![27u8, 91, 52, 56, 59]);
    lemma_ascii(";"@, seq![59u8]);
    lemma_ascii("t"@, seq![116u8]);
}

/// A size report is sent where it was asked for, and only there.
pub proof fn lemma_size_report(s: ScreenView)
    ensures
        s.size_reported() == (if s.output.in_band_resize {
            ScreenView { responses: s.responses + size_report(s), ..s }
        } else {
            s
        }),
{
    lemma_size_text();
}

/// Insert mode is the one mode without a marker; any other number changes nothing.
pub proof fn lemma_insert_mode(s: ScreenView, mode: u16, e: bool)
    ensures
        csi(
            s,
            mode,
            if e {
                104
            } else {
                108
            },
        ) == (if mode == 4 {
            ScreenView { modes: Modes { insert_mode: e, ..s.modes }, ..s }
        } else {
            s
        }),
{
    reveal(csi);
    lemma_one_param(mode);
    reveal_with_fuel(ScreenView::modes_set, 2);
    let params = seq![seq![mode]];
    let action: u8 = if e {
        104
    } else {
        108
    };
    assert(s.modes_set(params, 1, false, e) == s.mode_set(mode, false, e));
    assert(csi(s, mode, action) == s.csi_other(params, action));
}

/// Several modes in one sequence are switched one after the other.
pub proof fn lemma_modes_in_turn(s: ScreenView, a: Seq<Seq<u16>>, b: Seq<Seq<u16>>, e: bool)
    ensures
        ({
            let action: u8 = if e {
                104
            } else {
                108
            };
            let t = s.csi_done(a, Seq::empty(), 63, action);
            s.csi_done(a + b, Seq::empty(), 63, action) == t.csi_done(b, Seq::empty(), 63, action)
        }),
{
    lemma_turns(s, a, b, b.len() as int, e);
}

proof fn lemma_turns(s: ScreenView, a: Seq<Seq<u16>>, b: Seq<Seq<u16>>, k: int, e: bool)
    requires
        0 <= k <= b.len(),
    ensures
        s.modes_set(a + b, a.len() + k, true, e) == s.modes_set(
            a,
            a.len() as int,
            true,
            e,
        ).modes_set(b, k, true, e),
    decreases k,
{
    if k > 0 {
        lemma_turns(s, a, b, k - 1, e);
        assert((a + b)[a.len() + k - 1] == b[k - 1]);
    } else {
        lemma_first_turns(s, a, b, a.len() as int, e);
    }
}

proof fn lemma_first_turns(s: ScreenView, a: Seq<Seq<u16>>, b: Seq<Seq<u16>>, k: int, e: bool)
    requires
        0 <= k <= a.len(),
    ensures
        s.modes_set(a + b, k, true, e) == s.modes_set(a, k, true, e),
    decreases k,
{
    if k > 0 {
        lemma_first_turns(s, a, b, k - 1, e);
        assert((a + b)[k - 1] == a[k - 1]);
    }
}

// ---- the alternate screen -----------------------------------------------------------------------

/// Entering the alternate screen (47, 1047, and 1049, which saves the cursor first): it is
/// empty in the pen's background, the cursor comes along, the region is the whole of it, and
/// the primary keeps everything. Names of lines end. On it already, 47 and 1047 do nothing.
pub proof fn lemma_alternate_entered(s: ScreenView, mode: u16)
    requires
        s.wf(),
        mode == 47 || mode == 1047 || mode == 1049,
        !s.on_alt,
    ensures
        ({
            let t = private_mode(s, mode, true);
            &&& t.on_alt
            &&& t.alt.lines.len() == s.alt.rows
            &&& forall|i: int|
                0 <= i < s.alt.rows ==> empty_row(
                    #[trigger] t.alt.lines[i],
                    s.alt.cols as int,
                    s.pen.bg,
                )
            &&& t.alt == (BufferView {
                lines: t.alt.lines,
                cursor: s.primary.cursor,
                scroll_top: 0,
                scroll_bottom: (s.alt.rows - 1) as usize,
                ..s.alt
            })
            &&& t.primary == (BufferView { saved: t.primary.saved, ..s.primary })
            &&& if mode == 1049 {
                t.primary.saved matches Some(v) && v.cursor == s.primary.cursor && v.pen == s.pen
                    && v.origin == s.modes.origin_mode && v.charsets == s.charsets
            } else {
                t.primary.saved == s.primary.saved
            }
            &&& t.view_offset == 0 && t.epoch != s.epoch && t.prompts.len() == 0
            &&& t == (ScreenView {
                primary: t.primary,
                alt: t.alt,
                on_alt: true,
                view_offset: 0,
                epoch: t.epoch,
                prompts: t.prompts,
                ..s
            })
        }),
{
    lemma_private_modes(s, mode, true);
    reveal(ScreenView::switched);
    reveal(ScreenView::switched_saving);
    crate::ids::lemma_epoch_moves(s.epoch);
}

/// Leaving it: the primary is as it was, under 47 and 1047 with the cursor of the alternate
/// screen, under 1049 with what it had saved put back. Off it already, nothing happens under
/// 47 and 1047.
pub proof fn lemma_alternate_left(s: ScreenView, mode: u16)
    requires
        s.wf(),
        mode == 47 || mode == 1047 || mode == 1049,
        s.on_alt,
        mode == 1049 ==> (s.primary.saved matches Some(v) && v.cursor.row < s.primary.rows
            && v.cursor.col < s.primary.cols),
    ensures
        ({
            let t = private_mode(s, mode, false);
            &&& !t.on_alt
            &&& t.alt == s.alt
            &&& t.primary == (BufferView { cursor: t.primary.cursor, ..s.primary })
            &&& t.view_offset == 0 && t.epoch != s.epoch && t.prompts.len() == 0
            &&& if mode == 1049 {
                let v = s.primary.saved->0;
                &&& t.primary.cursor == v.cursor && t.pen == v.pen && t.charsets == v.charsets
                &&& t.modes == (Modes { origin_mode: v.origin, ..s.modes })
            } else {
                &&& t.primary.cursor == s.alt.cursor && t.pen == s.pen && t.charsets == s.charsets
                &&& t.modes == s.modes
            }
            &&& t == (ScreenView {
                primary: t.primary,
                on_alt: false,
                view_offset: 0,
                epoch: t.epoch,
                prompts: t.prompts,
                pen: t.pen,
                charsets: t.charsets,
                modes: t.modes,
                ..s
            })
        }),
{
    lemma_private_modes(s, mode, false);
    reveal(ScreenView::switched);
    reveal(ScreenView::switched_saving);
    crate::ids::lemma_epoch_moves(s.epoch);
}

/// Asking for the screen that is in front already changes nothing under 47 and 1047.
pub proof fn lemma_alternate_already(s: ScreenView)
    ensures
        private_mode(s, 47, s.on_alt) == s,
        private_mode(s, 1047, s.on_alt) == s,
{
    lemma_private_modes(s, 47, s.on_alt);
    lemma_private_modes(s, 1047, s.on_alt);
    reveal(ScreenView::switched);
}

/// On the alternate screen already, 1049 only saves the cursor; off it already, resetting it
/// only restores.
pub proof fn lemma_alternate_saving_already(s: ScreenView)
    ensures
        s.on_alt ==> private_mode(s, 1049, true) == esc(s, 55),
        !s.on_alt ==> private_mode(s, 1049, false) == esc(s, 56),
{
    lemma_private_modes(s, 1049, true);
    lemma_private_modes(s, 1049, false);
    lemma_escapes(s, 55);
    lemma_escapes(s, 56);
    reveal(ScreenView::switched);
    reveal(ScreenView::switched_saving);
}

/// The screen after a control sequence with a private marker.
#[verifier::opaque]
pub open spec fn marked(s: ScreenView, n: u16, marker: u8, action: u8) -> ScreenView {
    s.csi_done(seq![seq![n]], Seq::empty(), marker, action)
}

proof fn lemma_marked(s: ScreenView, n: u16, marker: u8, action: u8)
    ensures
        marker == 63 && action == 110 ==> marked(s, n, marker, action) == s.status_reported(n, 63),
        marker == 62 && action == 99 ==> marked(s, n, marker, action) == s.attributes_reported(62),
        marker == 62 && action == 113 ==> marked(s, n, marker, action) == s.version_reported(),
{
    reveal(marked);
    lemma_one_param(n);
    if marker == 62 || marker == 63 {
        assert(marked(s, n, marker, action) == s.csi_private(seq![seq![n]], marker, action));
    }
}

/// The answers to the questions with a marker: the cursor's place with a page behind it, the
/// second attributes, and the version.
pub proof fn lemma_marked_answers(s: ScreenView, n: u16)
    requires
        s.wf(),
    ensures
        ({
            let b = s.active();
            let row = if !s.modes.origin_mode {
                b.cursor.row + 1
            } else if b.cursor.row < b.scroll_top {
                1
            } else {
                b.cursor.row - b.scroll_top + 1
            };
            &&& marked(s, 6, 63, 110) == (ScreenView {
                responses: s.responses + (seq![27u8, 91, 63] + (decimal(row as nat) + seq![59u8]
                    + decimal((b.cursor.col + 1) as nat)) + seq![59u8, 49, 82]),
                ..s
            })
            &&& marked(s, n, 62, 99) == (ScreenView {
                responses: s.responses + seq![27u8, 91, 62, 48, 59, 48, 59, 48, 99],
                ..s
            })
        }),
{
    lemma_marked(s, 6, 63, 110);
    lemma_marked(s, n, 62, 99);
    reveal_strlit("\x1b[?");
    reveal_strlit(";1R");
    reveal_strlit("\x1b[>0;0;0c");
    lemma_ascii("\x1b[?"@, seq![27u8, 91, 63]);
    lemma_ascii(";1R"@, seq![59u8, 49, 82]);
    lemma_ascii("\x1b[>0;0;0c"@, seq![27u8, 91, 62, 48, 59, 48, 59, 48, 99]);
    lemma_size_text();
}

/// The answer about the margins gives them counted from one; a setting that is not known is
/// answered as such.
pub proof fn lemma_setting_answers(s: ScreenView, other: Seq<u8>)
    requires
        other != seq![109u8],
        other != seq![114u8],
    ensures
        s.dcs_done(seq![36u8], 113, seq![114u8]) == (ScreenView {
            responses: s.responses + (seq![27u8, 80, 49, 36, 114] + decimal(
                (s.active().scroll_top + 1) as nat,
            ) + seq![59u8] + decimal((s.active().scroll_bottom + 1) as nat) + seq![
                114u8,
                27,
                92,
            ]),
            ..s
        }),
        s.dcs_done(seq![36u8], 113, other) == (ScreenView {
            responses: s.responses + seq![27u8, 80, 48, 36, 114, 27, 92],
            ..s
        }),
{
    reveal_strlit("m");
    reveal_strlit("r");
    reveal_strlit("\x1bP1$r");
    reveal_strlit("r\x1b\\");
    reveal_strlit("\x1bP0$r\x1b\\");
    lemma_ascii("m"@, seq![109u8]);
    lemma_ascii("r"@, seq![114u8]);
    lemma_ascii("\x1bP1$r"@, seq![27u8, 80, 49, 36, 114]);
    lemma_ascii("r\x1b\\"@, seq![114u8, 27, 92]);
    lemma_ascii("\x1bP0$r\x1b\\"@, seq![27u8, 80, 48, 36, 114, 27, 92]);
    lemma_size_text();
    assert(seq![114u8][0] != seq![109u8][0]);
}

/// A capability is answered by its name as it was asked and its value, both in hexadecimal:
/// the terminal's name, the number of its colours, the bits of a channel. One that is not
/// known is answered with its name alone, and several are answered one behind the other.
pub proof fn lemma_capability_answers(name: Seq<u8>, more: Seq<Seq<u8>>)
    requires
        name.len() > 0,
    ensures
        ({
            let asked = hex_encoded(name);
            let value = if name == seq![84u8, 78] || name == seq![110u8, 97, 109, 101] {
                Some(seq![98u8, 110, 107, 116, 101, 114, 109])
            } else if name == seq![67u8, 111] || name == seq![99u8, 111, 108, 111, 114, 115] {
                Some(seq![50u8, 53, 54])
            } else if name == seq![82u8, 71, 66] {
                Some(seq![56u8, 47, 56, 47, 56])
            } else {
                None
            };
            &&& capability_reply(asked) == (match value {
                Some(v) => seq![27u8, 80, 49, 43, 114] + asked + seq![61u8] + hex_encoded(v)
                    + seq![27u8, 92],
                None => seq![27u8, 80, 48, 43, 114] + asked + seq![27u8, 92],
            })
            &&& capability_replies(more.push(asked)) == capability_replies(more)
                + capability_reply(asked)
            &&& capability_replies(Seq::empty()) == Seq::<u8>::empty()
        }),
{
    lemma_hex_round_trip(name);
    lemma_capability_names();
    assert(more.push(hex_encoded(name)).drop_last() =~= more);
}

proof fn lemma_capability_names()
    ensures
        utf8("TN"@) == seq![84u8, 78],
        utf8("name"@) == seq![110u8, 97, 109, 101],
        utf8("Co"@) == seq![67u8, 111],
        utf8("colors"@) == seq![99u8, 111, 108, 111, 114, 115],
        utf8("RGB"@) == seq![82u8, 71, 66],
        utf8("bnkterm"@) == seq![98u8, 110, 107, 116, 101, 114, 109],
        utf8("256"@) == seq![50u8, 53, 54],
        utf8("8/8/8"@) == seq![56u8, 47, 56, 47, 56],
        utf8("\x1bP1+r"@) == seq![27u8, 80, 49, 43, 114],
        utf8("\x1bP0+r"@) == seq![27u8, 80, 48, 43, 114],
        utf8("="@) == seq![61u8],
        utf8("\x1b\\"@) == seq![27u8, 92],
{
    reveal_strlit("TN");
    reveal_strlit("name");
    reveal_strlit("Co");
    reveal_strlit("colors");
    reveal_strlit("RGB");
    reveal_strlit("bnkterm");
    reveal_strlit("256");
    reveal_strlit("8/8/8");
    reveal_strlit("\x1bP1+r");
    reveal_strlit("\x1bP0+r");
    reveal_strlit("=");
    reveal_strlit("\x1b\\");
    lemma_ascii("TN"@, seq![84u8, 78]);
    lemma_ascii("name"@, seq![110u8, 97, 109, 101]);
    lemma_ascii("Co"@, seq![67u8, 111]);
    lemma_ascii("colors"@, seq![99u8, 111, 108, 111, 114, 115]);
    lemma_ascii("RGB"@, seq![82u8, 71, 66]);
    lemma_ascii("bnkterm"@, seq![98u8, 110, 107, 116, 101, 114, 109]);
    lemma_ascii("256"@, seq![50u8, 53, 54]);
    lemma_ascii("8/8/8"@, seq![56u8, 47, 56, 47, 56]);
    lemma_ascii("\x1bP1+r"@, seq![27u8, 80, 49, 43, 114]);
    lemma_ascii("\x1bP0+r"@, seq![27u8, 80, 48, 43, 114]);
    lemma_ascii("="@, seq![61u8]);
    lemma_ascii("\x1b\\"@, seq![27u8, 92]);
}

// ---- the resets ---------------------------------------------------------------------------------

/// A buffer as the terminal opens with it.
pub open spec fn untouched(b: BufferView, cols: int, rows: int, limit: int) -> bool {
    &&& b.cols == cols && b.rows == rows && b.scrollback_limit == limit
    &&& b.lines.len() == rows
    &&& forall|i: int|
        0 <= i < rows ==> empty_row(#[trigger] b.lines[i], cols, Color::Default)
    &&& b.scrollback.len() == 0 && b.evicted == 0
    &&& b.cursor == (Cursor { row: 0, col: 0, pending_wrap: false })
    &&& b.saved is None
    &&& b.scroll_top == 0 && b.scroll_bottom == rows - 1
    &&& b.tabs.len() >= cols
    &&& forall|j: int| 0 <= j < b.tabs.len() ==> #[trigger] b.tabs[j] == (j % 8 == 0)
}

/// What the terminal opens with: two empty screens, no history behind the alternate one,
/// default colours, autowrap on, a steady visible block cursor, and nothing else set, held
/// or owed.
pub open spec fn powered_on(s: ScreenView, cols: int, rows: int, limit: int) -> bool {
    &&& untouched(s.primary, cols, rows, limit)
    &&& untouched(s.alt, cols, rows, 0)
    &&& !s.on_alt
    &&& s.pen.fg == Color::Default && s.pen.bg == Color::Default && s.pen.attrs == Attrs(0)
        && s.pen.link == LinkId(0)
    &&& s.modes.autowrap && !s.modes.origin_mode && !s.modes.insert_mode
        && !s.modes.grapheme_clustering
    &&& !s.input.app_cursor_keys && !s.input.keypad_app && !s.input.bracketed_paste
        && !s.input.focus_events
    &&& s.output.cursor_visible && !s.output.synchronized && !s.output.in_band_resize
    &&& s.charsets.g0 == Charset::Ascii && s.charsets.g1 == Charset::Ascii && !s.charsets.gl_is_g1
    &&& s.title.len() == 0 && s.view_offset == 0
    &&& s.mouse.protocol == MouseProtocol::Off && !s.mouse.sgr
    &&& s.cursor_appearance.style == CursorStyle::Block && !s.cursor_appearance.blink
    &&& s.responses.len() == 0 && s.links.len() == 0 && s.kitty_stack.len() == 0
    &&& s.modify_other_keys == ModifyOtherKeys::Off
    &&& s.cwd is None && s.prompts.len() == 0
    &&& s.cluster_anchor is None && s.last_printed is None
    &&& s.clipboard_writes.len() == 0 && !s.bell
    &&& s.pixel_size == (0u32, 0u32)
}

/// A new screen is powered on, of the size asked for but at least one cell each way; and so
/// is one after a hard reset (`ESC c`), at its size, with a full history to fill and in a new
/// epoch.
pub proof fn lemma_power_on(s: ScreenView, cols: usize, rows: usize, limit: usize)
    requires
        s.wf(),
        rows <= usize::MAX,
    ensures
        ({
            let w = if cols == 0 {
                1
            } else {
                cols as int
            };
            let h = if rows == 0 {
                1
            } else {
                rows as int
            };
            powered_on(ScreenView::fresh(cols, rows, limit), w, h, limit as int)
        }),
        powered_on(
            esc(s, 99),
            s.active().cols as int,
            s.active().rows as int,
            10_000,
        ),
        esc(s, 99).epoch != s.epoch,
        esc(s, 99).theme == ScreenView::fresh(cols, rows, limit).theme,
{
    lemma_escapes(s, 99);
    crate::ids::lemma_epoch_moves(s.epoch);
    assert(DEFAULT_SCROLLBACK == 10_000);
}

/// The soft reset (`! p`) puts the pen, the character sets, the margins and the listed modes
/// back, forgets the saved cursor, and leaves the cells, the cursor's place and the rest.
pub proof fn lemma_soft_reset(s: ScreenView)
    requires
        s.wf(),
    ensures
        ({
            let t = s.csi_done(Seq::empty(), seq![33u8], 0, 112);
            let b = s.active();
            &&& t.pen.fg == Color::Default && t.pen.bg == Color::Default && t.pen.attrs == Attrs(0)
                && t.pen.link == LinkId(0)
            &&& t.modes.autowrap && !t.modes.origin_mode && !t.modes.insert_mode
                && t.modes.grapheme_clustering == s.modes.grapheme_clustering
            &&& !t.input.app_cursor_keys && !t.input.keypad_app && t.input.bracketed_paste
                == s.input.bracketed_paste && t.input.focus_events == s.input.focus_events
            &&& t.output.cursor_visible && t.output.synchronized == s.output.synchronized
                && t.output.in_band_resize == s.output.in_band_resize
            &&& t.charsets.g0 == Charset::Ascii && t.charsets.g1 == Charset::Ascii
                && !t.charsets.gl_is_g1
            &&& t.active() == (BufferView {
                saved: None,
                scroll_top: 0,
                scroll_bottom: (b.rows - 1) as usize,
                cursor: Cursor { pending_wrap: false, ..b.cursor },
                ..b
            })
            &&& front_only(
                ScreenView {
                    pen: t.pen,
                    modes: t.modes,
                    input: t.input,
                    output: t.output,
                    charsets: t.charsets,
                    ..s
                },
                t,
            )
        }),
{
    let inter = seq![33u8];
    assert(inter.len() == 1);
    assert(s.csi_done(Seq::empty(), inter, 0, 112) == s.csi_intermediate(
        Seq::empty(),
        inter,
        0,
        112,
    ));
    assert(s.csi_intermediate(Seq::empty(), inter, 0, 112) == s.soft_reset());
}

/// The look of the cursor (a space and `q`): 1 and 2 a block, 3 and 4 an underline, 5 and 6 a
/// bar, the odd ones blinking; 0 is the look at power-on, and any other number changes
/// nothing.
pub proof fn lemma_cursor_looks(s: ScreenView, n: u16)
    ensures
        ({
            let t = s.csi_done(seq![seq![n]], seq![32u8], 0, 113);
            let look = t.cursor_appearance;
            &&& t == (ScreenView { cursor_appearance: look, ..s })
            &&& n > 6 ==> look == s.cursor_appearance
            &&& n <= 6 ==> look.blink == (n % 2 == 1)
            &&& n <= 2 ==> look.style == CursorStyle::Block
            &&& n == 3 || n == 4 ==> look.style == CursorStyle::Underline
            &&& n == 5 || n == 6 ==> look.style == CursorStyle::Bar
        }),
{
    lemma_one_param(n);
    let inter = seq![32u8];
    assert(inter.len() == 1 && inter[0] == 32);
    assert(seq![33u8][0] == 33 && seq![36u8][0] == 36);
    assert(s.csi_done(seq![seq![n]], inter, 0, 113) == s.csi_intermediate(
        seq![seq![n]],
        inter,
        0,
        113,
    ));
}

// ---- the answers --------------------------------------------------------------------------------

/// Status requests (`n`): 5 is answered that all is well, 6 with the cursor's row and column
/// counted from one, the row from the top margin under origin mode. No other number is
/// answered.
pub proof fn lemma_status_answers(s: ScreenView, n: u16)
    requires
        s.wf(),
        n != 5 && n != 6,
    ensures
        ({
            let b = s.active();
            let row = if !s.modes.origin_mode {
                b.cursor.row + 1
            } else if b.cursor.row < b.scroll_top {
                1
            } else {
                b.cursor.row - b.scroll_top + 1
            };
            let place = decimal(row as nat) + seq![59u8] + decimal((b.cursor.col + 1) as nat);
            &&& csi(s, 5, 110) == (ScreenView {
                responses: s.responses + seq![27u8, 91, 48, 110],
                ..s
            })
            &&& csi(s, 6, 110) == (ScreenView {
                responses: s.responses + (seq![27u8, 91] + place + seq![82u8]),
                ..s
            })
            &&& csi(s, n, 110) == s
        }),
{
    lemma_csi_settings(s, 5, 110);
    lemma_csi_settings(s, 6, 110);
    lemma_csi_settings(s, n, 110);
    reveal_strlit("\x1b[0n");
    reveal_strlit("\x1b[");
    reveal_strlit("R");
    lemma_ascii("\x1b[0n"@, seq![27u8, 91, 48, 110]);
    lemma_ascii("\x1b["@, seq![27u8, 91]);
    lemma_ascii("R"@, seq![82u8]);
    lemma_size_text();
}

/// What the terminal says it is (`c`): a VT100 with the advanced video option.
pub proof fn lemma_attribute_answers(s: ScreenView, n: u16)
    ensures
        csi(s, n, 99) == (ScreenView {
            responses: s.responses + seq![27u8, 91, 63, 49, 59, 50, 99],
            ..s
        }),
{
    lemma_csi_settings(s, n, 99);
    reveal_strlit("\x1b[?1;2c");
    lemma_ascii("\x1b[?1;2c"@, seq![27u8, 91, 63, 49, 59, 50, 99]);
}

/// The answer about a private mode (`? $ p`) is its number and 1 where it is on, 2 where it is
/// off, and 0 where it is not known.
pub proof fn lemma_mode_answers(s: ScreenView, mode: u16)
    ensures
        ({
            let t = s.csi_done(seq![seq![mode]], seq![36u8], 63, 112);
            let state: u8 = match s.mode_state(mode, true) {
                Some(on) => if on {
                    49
                } else {
                    50
                },
                None => 48,
            };
            t == (ScreenView {
                responses: s.responses + (seq![27u8, 91, 63] + decimal(mode as nat) + seq![59u8]
                    + seq![state] + seq![36u8, 121]),
                ..s
            })
        }),
{
    lemma_one_param(mode);
    let inter = seq![36u8];
    assert(inter.len() == 1 && inter[0] == 36 && seq![33u8][0] == 33);
    assert(s.csi_done(seq![seq![mode]], inter, 63, 112) == s.csi_intermediate(
        seq![seq![mode]],
        inter,
        63,
        112,
    ));
    reveal_strlit("\x1b[?");
    reveal_strlit("$y");
    lemma_ascii("\x1b[?"@, seq![27u8, 91, 63]);
    lemma_ascii("$y"@, seq![36u8, 121]);
    lemma_size_text();
    assert(decimal(0) == seq![48u8] && decimal(1) == seq![49u8] && decimal(2) == seq![50u8]);
}

/// The state of a mode is the switch it names, and there is none for a number that is no mode.
pub proof fn lemma_mode_states(s: ScreenView)
    ensures
        s.mode_state(4, false) == Some(s.modes.insert_mode),
        s.mode_state(1, true) == Some(s.input.app_cursor_keys),
        s.mode_state(6, true) == Some(s.modes.origin_mode),
        s.mode_state(7, true) == Some(s.modes.autowrap),
        s.mode_state(12, true) == Some(s.cursor_appearance.blink),
        s.mode_state(25, true) == Some(s.output.cursor_visible),
        s.mode_state(47, true) == Some(s.on_alt),
        s.mode_state(1047, true) == Some(s.on_alt),
        s.mode_state(1049, true) == Some(s.on_alt),
        s.mode_state(1000, true) == Some(s.mouse.protocol == MouseProtocol::Press),
        s.mode_state(1002, true) == Some(s.mouse.protocol == MouseProtocol::ButtonEvent),
        s.mode_state(1003, true) == Some(s.mouse.protocol == MouseProtocol::AnyEvent),
        s.mode_state(1004, true) == Some(s.input.focus_events),
        s.mode_state(1006, true) == Some(s.mouse.sgr),
        s.mode_state(2004, true) == Some(s.input.bracketed_paste),
        s.mode_state(2026, true) == Some(s.output.synchronized),
        s.mode_state(2027, true) == Some(s.modes.grapheme_clustering),
        s.mode_state(2048, true) == Some(s.output.in_band_resize),
{
}

// ---- the keyboard -------------------------------------------------------------------------------

/// The screen after a request about the kitty keyboard flags.
#[verifier::opaque]
pub open spec fn kitty(s: ScreenView, params: Seq<Seq<u16>>, marker: u8) -> ScreenView {
    s.csi_done(params, Seq::empty(), marker, 117)
}

proof fn lemma_kitty(s: ScreenView, params: Seq<Seq<u16>>, marker: u8)
    requires
        60 <= marker <= 63,
    ensures
        kitty(s, params, marker) == s.kitty_asked(params, marker),
{
    reveal(kitty);
    assert(kitty(s, params, marker) == s.csi_private(params, marker, 117));
}

/// The keyboard flags: a push (`>`) puts the flags that are known, of those asked for, on top
/// of what was in force, and lets the oldest go where the stack is full; a pop (`<`) takes as
/// many off as asked and never more than there are; a query (`?`) is answered with the flags
/// in force.
pub proof fn lemma_keyboard_stack(s: ScreenView, n: u16)
    requires
        s.wf(),
    ensures
        ({
            let have = s.kitty_stack;
            let pushed = kitty(s, seq![seq![n]], 62);
            let popped = kitty(s, seq![seq![n]], 60);
            let count = if n == 0 {
                1
            } else {
                n as int
            };
            let top = if have.len() > 0 {
                have[have.len() - 1].0
            } else {
                0
            };
            &&& pushed == (ScreenView { kitty_stack: pushed.kitty_stack, ..s })
            &&& pushed.kitty_stack.len() == (if have.len() < 16 {
                have.len() + 1
            } else {
                16
            })
            &&& pushed.kitty_stack.last().0 == n % 4
            &&& have.len() < 16 ==> pushed.kitty_stack.drop_last() == have
            &&& have.len() == 16 ==> pushed.kitty_stack.drop_last() == have.skip(1)
            &&& popped == (ScreenView { kitty_stack: popped.kitty_stack, ..s })
            &&& popped.kitty_stack == (if count < have.len() {
                have.take(have.len() - count)
            } else {
                Seq::empty()
            })
            &&& kitty(s, seq![seq![n]], 63) == (ScreenView {
                responses: s.responses + (seq![27u8, 91, 63] + decimal(top as nat) + seq![117u8]),
                ..s
            })
        }),
{
    let params = seq![seq![n]];
    lemma_one_param(n);
    lemma_kitty(s, params, 60);
    lemma_kitty(s, params, 62);
    lemma_kitty(s, params, 63);
    reveal_strlit("\x1b[?");
    reveal_strlit("u");
    lemma_ascii("\x1b[?"@, seq![27u8, 91, 63]);
    lemma_ascii("u"@, seq![117u8]);
    let pushed = kitty(s, params, 62);
    let have = s.kitty_stack;
    if have.len() < 16 {
        assert(pushed.kitty_stack.drop_last() =~= have);
    } else {
        assert(pushed.kitty_stack.drop_last() =~= have.skip(1));
    }
    assert(have.take(0) =~= Seq::<KittyFlags>::empty());
}

/// Setting the flags (`=`) changes what is in force and keeps the stack below: without a
/// second number or with 1 it replaces them, with 2 it adds, with 3 it takes away, and with
/// any other it leaves them.
pub proof fn lemma_keyboard_set(s: ScreenView, n: u16, how: u16)
    requires
        s.wf(),
    ensures
        ({
            let have = s.kitty_stack;
            let now: u8 = if have.len() > 0 {
                have[have.len() - 1].0
            } else {
                0
            };
            let asked = (n % 4) as u8;
            let t = kitty(s, seq![seq![n], seq![how]], 61);
            &&& t == (ScreenView { kitty_stack: t.kitty_stack, ..s })
            &&& t.kitty_stack.len() == (if have.len() > 0 {
                have.len()
            } else {
                1
            })
            &&& t.kitty_stack.last().0 == (if how == 1 {
                asked
            } else if how == 2 {
                now | asked
            } else if how == 3 {
                now & !asked
            } else {
                now
            })
            &&& have.len() > 0 ==> t.kitty_stack.drop_last() == have.drop_last()
            &&& kitty(s, seq![seq![n]], 61) == kitty(s, seq![seq![n], seq![1u16]], 61)
        }),
{
    let params = seq![seq![n], seq![how]];
    crate::dispatch_laws::lemma_two_params(n, how);
    crate::dispatch_laws::lemma_two_params(n, 1);
    lemma_one_param(n);
    lemma_kitty(s, params, 61);
    lemma_kitty(s, seq![seq![n]], 61);
    lemma_kitty(s, seq![seq![n], seq![1u16]], 61);
    let t = kitty(s, params, 61);
    let have = s.kitty_stack;
    if have.len() > 0 {
        assert(t.kitty_stack.drop_last() =~= have.drop_last());
    }
}

/// The screen after a request about xterm's key modifiers.
#[verifier::opaque]
pub open spec fn key_modifiers(s: ScreenView, params: Seq<Seq<u16>>) -> ScreenView {
    s.csi_done(params, Seq::empty(), 62, 109)
}

proof fn lemma_key_request(s: ScreenView, params: Seq<Seq<u16>>)
    ensures
        key_modifiers(s, params) == s.modify_keys_asked(params),
{
    reveal(key_modifiers);
    assert(key_modifiers(s, params) == s.csi_private(params, 62, 109));
}

/// xterm's key modifiers (`> m` with 4): the level asked for, off without one and for a level
/// that is not known; any other resource is left alone.
pub proof fn lemma_key_modifiers(s: ScreenView, which: u16, level: u16)
    requires
        which != 4,
    ensures
        ({
            let t = key_modifiers(s, seq![seq![4u16], seq![level]]);
            &&& t == (ScreenView { modify_other_keys: t.modify_other_keys, ..s })
            &&& t.modify_other_keys == (if level == 1 {
                ModifyOtherKeys::Level1
            } else if level == 2 {
                ModifyOtherKeys::Level2
            } else {
                ModifyOtherKeys::Off
            })
            &&& key_modifiers(s, seq![seq![4u16]]) == (ScreenView {
                modify_other_keys: ModifyOtherKeys::Off,
                ..s
            })
            &&& key_modifiers(s, seq![seq![which], seq![level]]) == s
        }),
{
    crate::dispatch_laws::lemma_two_params(4, level);
    crate::dispatch_laws::lemma_two_params(which, level);
    lemma_one_param(4);
    lemma_key_request(s, seq![seq![4u16], seq![level]]);
    lemma_key_request(s, seq![seq![4u16]]);
    lemma_key_request(s, seq![seq![which], seq![level]]);
}

} // verus!
