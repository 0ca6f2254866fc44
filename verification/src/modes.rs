//! Modes, the reports a program can ask for, the alternate screen, and the resets.
use vstd::prelude::*;
use crate::buffer::{BufferView, DEFAULT_SCROLLBACK};
use crate::cell::{Charsets, Pen};
use crate::grapheme::BreakState;
use crate::mouse::{MouseMode, MouseProtocol};
use crate::screen::{
    CursorAppearance, CursorStyle, InputModes, Modes, OutputModes, Screen, ScreenView,
};
use crate::text::{decimal, push_decimal, utf8, write_text};
use crate::vt::{value_at, Params};

verus! {

/// What a mouse mode makes of the reporting. The three levels exclude each other, and
/// disabling any of them turns reporting off; the encoding is its own matter.
pub open spec fn mouse_after(mouse: MouseMode, mode: u16, enable: bool) -> MouseMode {
    if mode == 1006 {
        MouseMode { sgr: enable, ..mouse }
    } else {
        MouseMode {
            protocol: if !enable {
                MouseProtocol::Off
            } else if mode == 1000 {
                MouseProtocol::Press
            } else if mode == 1002 {
                MouseProtocol::ButtonEvent
            } else {
                MouseProtocol::AnyEvent
            },
            ..mouse
        }
    }
}

/// What a private mode makes of the child's wishes for its input.
pub open spec fn input_after(input: InputModes, mode: u16, enable: bool) -> InputModes {
    if mode == 1 {
        InputModes { app_cursor_keys: enable, ..input }
    } else if mode == 1004 {
        InputModes { focus_events: enable, ..input }
    } else if mode == 2004 {
        InputModes { bracketed_paste: enable, ..input }
    } else {
        input
    }
}

/// What a private mode makes of what is shown.
pub open spec fn output_after(output: OutputModes, mode: u16, enable: bool) -> OutputModes {
    if mode == 25 {
        OutputModes { cursor_visible: enable, ..output }
    } else if mode == 2026 {
        OutputModes { synchronized: enable, ..output }
    } else {
        output
    }
}

/// The look a cursor-style parameter selects; 0 is the power-on look.
pub open spec fn cursor_look(ps: u16) -> Option<CursorAppearance> {
    if ps == 0 {
        Some(CursorAppearance::initial())
    } else if ps == 1 || ps == 2 {
        Some(CursorAppearance::new(CursorStyle::Block, ps == 1))
    } else if ps == 3 || ps == 4 {
        Some(CursorAppearance::new(CursorStyle::Underline, ps == 3))
    } else if ps == 5 || ps == 6 {
        Some(CursorAppearance::new(CursorStyle::Bar, ps == 5))
    } else {
        None
    }
}

impl ScreenView {
    /// Whether a mode is on, `None` for one that is not implemented.
    pub open spec fn mode_state(self, mode: u16, private: bool) -> Option<bool> {
        if !private {
            if mode == 4 {
                Some(self.modes.insert_mode)
            } else {
                None
            }
        } else if mode == 1 {
            Some(self.input.app_cursor_keys)
        } else if mode == 6 {
            Some(self.modes.origin_mode)
        } else if mode == 7 {
            Some(self.modes.autowrap)
        } else if mode == 12 {
            Some(self.cursor_appearance.blink)
        } else if mode == 25 {
            Some(self.output.cursor_visible)
        } else if mode == 47 || mode == 1047 || mode == 1049 {
            Some(self.on_alt)
        } else if mode == 1000 {
            Some(self.mouse.protocol == MouseProtocol::Press)
        } else if mode == 1002 {
            Some(self.mouse.protocol == MouseProtocol::ButtonEvent)
        } else if mode == 1003 {
            Some(self.mouse.protocol == MouseProtocol::AnyEvent)
        } else if mode == 1004 {
            Some(self.input.focus_events)
        } else if mode == 1006 {
            Some(self.mouse.sgr)
        } else if mode == 2004 {
            Some(self.input.bracketed_paste)
        } else if mode == 2026 {
            Some(self.output.synchronized)
        } else if mode == 2027 {
            Some(self.modes.grapheme_clustering)
        } else if mode == 2048 {
            Some(self.output.in_band_resize)
        } else {
            None
        }
    }

    /// The answer to "is this mode on?": 0 for a mode not implemented, 1 on, 2 off.
    pub open spec fn mode_report(self, mode: u16, private: bool) -> Seq<u8> {
        let state = match self.mode_state(mode, private) {
            Some(true) => 1nat,
            Some(false) => 2,
            None => 0,
        };
        (if private {
            utf8("\x1b[?"@)
        } else {
            utf8("\x1b["@)
        }) + decimal(mode as nat) + utf8(";"@) + decimal(state) + utf8("$y"@)
    }

    /// The screen in front replaced by the other one. Entering the alternate screen clears
    /// it; the cursor goes along both ways. The view is live, and the epoch ends.
    #[verifier::opaque]
    pub open spec fn switched(self, enable: bool) -> ScreenView {
        let s = ScreenView { view_offset: 0, ..self }.identity_broken();
        if enable == self.on_alt {
            self
        } else if enable {
            ScreenView {
                alt: BufferView {
                    cursor: self.primary.cursor,
                    ..self.alt.cleared(self.blank()).full_region()
                },
                on_alt: true,
                ..s
            }
        } else {
            ScreenView {
                primary: BufferView { cursor: self.alt.cursor, ..self.primary },
                on_alt: false,
                ..s
            }
        }
    }

    /// The in-band size report, where the child asked for it.
    pub open spec fn size_reported(self) -> ScreenView {
        if !self.output.in_band_resize {
            self
        } else {
            self.responding(
                utf8("\x1b[48;"@) + decimal(self.active().rows as nat) + utf8(";"@) + decimal(
                    self.active().cols as nat,
                ) + utf8(";"@) + decimal(self.pixel_size.1 as nat) + utf8(";"@) + decimal(
                    self.pixel_size.0 as nat,
                ) + utf8("t"@),
            )
        }
    }

    /// Origin mode set or reset; the cursor goes home either way.
    #[verifier::opaque]
    pub open spec fn origin_set(self, enable: bool) -> ScreenView {
        ScreenView { modes: Modes { origin_mode: enable, ..self.modes }, ..self }.moved_to(0, 0)
    }

    /// The cursor saved and the alternate screen entered, or that left and the cursor
    /// restored.
    #[verifier::opaque]
    pub open spec fn switched_saving(self, enable: bool) -> ScreenView {
        if enable {
            self.cursor_saved().switched(true)
        } else {
            self.switched(false).cursor_restored()
        }
    }

    /// Clustering set or reset. What is on screen was measured the other way, so no cluster
    /// goes on.
    pub open spec fn clustering_set(self, enable: bool) -> ScreenView {
        ScreenView {
            modes: Modes { grapheme_clustering: enable, ..self.modes },
            cluster: BreakState::start(),
            cluster_anchor: None,
            ..self
        }
    }

    /// In-band size reports enabled or disabled; enabling sends one at once.
    #[verifier::opaque]
    pub open spec fn resize_reporting_set(self, enable: bool) -> ScreenView {
        ScreenView {
            output: OutputModes { in_band_resize: enable, ..self.output },
            ..self
        }.size_reported()
    }

    /// A private mode set or reset.
    pub open spec fn private_mode_set(self, mode: u16, enable: bool) -> ScreenView {
        if mode == 6 {
            self.origin_set(enable)
        } else if mode == 12 {
            ScreenView {
                cursor_appearance: CursorAppearance { blink: enable, ..self.cursor_appearance },
                ..self
            }
        } else if mode == 47 || mode == 1047 {
            self.switched(enable)
        } else if mode == 1049 {
            self.switched_saving(enable)
        } else if mode == 1000 || mode == 1002 || mode == 1003 || mode == 1006 {
            ScreenView { mouse: mouse_after(self.mouse, mode, enable), ..self }
        } else if mode == 2027 {
            self.clustering_set(enable)
        } else if mode == 2048 {
            self.resize_reporting_set(enable)
        } else if mode == 7 {
            ScreenView { modes: Modes { autowrap: enable, ..self.modes }, ..self }
        } else {
            ScreenView {
                input: input_after(self.input, mode, enable),
                output: output_after(self.output, mode, enable),
                ..self
            }
        }
    }

    /// A mode set or reset; one that is not implemented changes nothing.
    pub open spec fn mode_set(self, mode: u16, private: bool, enable: bool) -> ScreenView {
        if private {
            self.private_mode_set(mode, enable)
        } else if mode == 4 {
            ScreenView { modes: Modes { insert_mode: enable, ..self.modes }, ..self }
        } else {
            self
        }
    }

    /// The modes of a parameter list set or reset, in order.
    pub open spec fn modes_set(
        self,
        params: Seq<Seq<u16>>,
        k: int,
        private: bool,
        enable: bool,
    ) -> ScreenView
        decreases k,
    {
        if k <= 0 {
            self
        } else {
            self.modes_set(params, k - 1, private, enable).mode_set(
                value_at(params, k - 1),
                private,
                enable,
            )
        }
    }

    /// The cursor position as a report gives it: 1-based, and relative to the region under
    /// origin mode.
    pub open spec fn reported_position(self) -> (int, int) {
        let b = self.active();
        let row = if !self.modes.origin_mode {
            b.cursor.row as int
        } else if b.cursor.row < b.scroll_top {
            0
        } else {
            b.cursor.row - b.scroll_top
        };
        (row + 1, b.cursor.col + 1)
    }

    /// A status request answered: "are you well?", and where the cursor is.
    pub open spec fn status_reported(self, ps: u16, private: u8) -> ScreenView {
        let (row, col) = self.reported_position();
        let place = decimal(row as nat) + utf8(";"@) + decimal(col as nat);
        if private == 0 && ps == 5 {
            self.responding(utf8("\x1b[0n"@))
        } else if private == 0 && ps == 6 {
            self.responding(utf8("\x1b["@) + place + utf8("R"@))
        } else if private == 63 && ps == 6 {
            self.responding(utf8("\x1b[?"@) + place + utf8(";1R"@))
        } else {
            self
        }
    }

    /// "What are you?" answered, in its two forms.
    pub open spec fn attributes_reported(self, private: u8) -> ScreenView {
        if private == 0 {
            self.responding(utf8("\x1b[?1;2c"@))
        } else if private == 62 {
            self.responding(utf8("\x1b[>0;0;0c"@))
        } else {
            self
        }
    }

    /// The hard reset: the power-on screen, of the same size, in a new epoch.
    pub open spec fn hard_reset(self) -> ScreenView {
        ScreenView {
            epoch: self.epoch.succ(),
            ..ScreenView::fresh(self.active().cols, self.active().rows, DEFAULT_SCROLLBACK)
        }
    }

    /// The soft reset: settings back to their defaults, autowrap on, and what is on the
    /// screen left alone.
    pub open spec fn soft_reset(self) -> ScreenView {
        ScreenView {
            pen: Pen::initial(),
            modes: Modes {
                insert_mode: false,
                origin_mode: false,
                autowrap: true,
                ..self.modes
            },
            input: InputModes { app_cursor_keys: false, keypad_app: false, ..self.input },
            output: OutputModes { cursor_visible: true, ..self.output },
            charsets: Charsets::initial(),
            ..self.with_active(
                BufferView { saved: None, ..self.active().full_region().unwrapped() },
            )
        }
    }
}

fn switch_input(input: InputModes, mode: u16, enable: bool) -> (r: InputModes)
    ensures
        r == input_after(input, mode, enable),
{
    match mode {
        1 => InputModes { app_cursor_keys: enable, ..input },
        1004 => InputModes { focus_events: enable, ..input },
        2004 => InputModes { bracketed_paste: enable, ..input },
        _ => input,
    }
}

fn switch_output(output: OutputModes, mode: u16, enable: bool) -> (r: OutputModes)
    ensures
        r == output_after(output, mode, enable),
{
    match mode {
        25 => OutputModes { cursor_visible: enable, ..output },
        2026 => OutputModes { synchronized: enable, ..output },
        _ => output,
    }
}

fn switch_mouse(mouse: MouseMode, mode: u16, enable: bool) -> (r: MouseMode)
    ensures
        r == mouse_after(mouse, mode, enable),
{
    let protocol = if !enable {
        MouseProtocol::Off
    } else if mode == 1000 {
        MouseProtocol::Press
    } else if mode == 1002 {
        MouseProtocol::ButtonEvent
    } else {
        MouseProtocol::AnyEvent
    };
    if mode == 1006 {
        MouseMode { sgr: enable, ..mouse }
    } else {
        MouseMode { protocol, ..mouse }
    }
}

impl Screen {
    /// Whether `mode` is implemented, and if so whether it is on.
    pub fn mode_state(&self, mode: u16, private: bool) -> (r: Option<bool>)
        ensures
            r == self@.mode_state(mode, private),
    {
        if !private {
            return if mode == 4 {
                Some(self.modes.insert_mode)
            } else {
                None
            };
        }
        match mode {
            1 => Some(self.input.app_cursor_keys),
            6 => Some(self.modes.origin_mode),
            7 => Some(self.modes.autowrap),
            12 => Some(self.cursor_appearance.blink),
            25 => Some(self.output.cursor_visible),
            47 | 1047 | 1049 => Some(self.on_alt),
            1000 => Some(self.mouse.protocol == MouseProtocol::Press),
            1002 => Some(self.mouse.protocol == MouseProtocol::ButtonEvent),
            1003 => Some(self.mouse.protocol == MouseProtocol::AnyEvent),
            1004 => Some(self.input.focus_events),
            1006 => Some(self.mouse.sgr),
            2004 => Some(self.input.bracketed_paste),
            2026 => Some(self.output.synchronized),
            2027 => Some(self.modes.grapheme_clustering),
            2048 => Some(self.output.in_band_resize),
            _ => None,
        }
    }

    /// DECRQM: "do you know this mode, and is it on?" A mode that is not implemented must
    /// report 0: saying "off" would invite the program to switch it on and depend on it.
    pub fn report_mode(&mut self, mode: u16, private: bool)
        requires
            old(self).wf(),
        ensures
            final(self)@ == old(self)@.responding(old(self)@.mode_report(mode, private)),
            final(self).wf(),
    {
        let state: u32 = match self.mode_state(mode, private) {
            Some(true) => 1,
            Some(false) => 2,
            None => 0,
        };
        if private {
            self.respond_text("\x1b[?");
        } else {
            self.respond_text("\x1b[");
        }
        self.respond_number(mode as u32);
        self.respond_text(";");
        self.respond_number(state);
        self.respond_text("$y");
        assert(self@.responses =~= old(self)@.responses + old(self)@.mode_report(mode, private));
    }

    /// Enter or leave the alternate screen.
    fn switch_alt(&mut self, enable: bool)
        requires
            old(self).wf(),
        ensures
            final(self)@ == old(self)@.switched(enable),
            final(self).wf(),
    {
        reveal(ScreenView::switched);
        if enable == self.on_alt {
            return;
        }
        self.view_offset = 0;
        self.break_row_identity();
        if enable {
            let blank = self.blank_cell();
            self.alt.clear_all(blank);
            self.alt.cursor = self.primary.cursor;
            self.alt.scroll_top = 0;
            self.alt.scroll_bottom = self.alt.rows - 1;
            self.on_alt = true;
        } else {
            self.primary.cursor = self.alt.cursor;
            self.on_alt = false;
        }
    }

    /// The in-band size report. Silent unless the child asked for it.
    pub fn report_size(&mut self)
        requires
            old(self).wf(),
        ensures
            final(self)@ == old(self)@.size_reported(),
            final(self).wf(),
    {
        if !self.output.in_band_resize {
            return;
        }
        let (cols, rows) = self.dimensions();
        let (w, h) = self.pixel_size;
        let mut out: Vec<u8> = Vec::new();
        write_text(&mut out, "\x1b[48;");
        push_decimal(&mut out, rows as u32);
        write_text(&mut out, ";");
        push_decimal(&mut out, cols as u32);
        write_text(&mut out, ";");
        push_decimal(&mut out, h);
        write_text(&mut out, ";");
        push_decimal(&mut out, w);
        write_text(&mut out, "t");
        self.respond(out.as_slice());
    }

    /// Tell the child the window gained or lost focus, if it asked to be told.
    pub fn report_focus(&mut self, focused: bool)
        requires
            old(self).wf(),
        ensures
            final(self)@ == (if !old(self)@.input.focus_events {
                old(self)@
            } else if focused {
                old(self)@.responding(utf8("\x1b[I"@))
            } else {
                old(self)@.responding(utf8("\x1b[O"@))
            }),
            final(self).wf(),
    {
        if !self.input.focus_events {
            return;
        }
        if focused {
            self.respond_text("\x1b[I");
        } else {
            self.respond_text("\x1b[O");
        }
    }

    /// Set or clear a switch that sets nothing else off.
    fn set_switch(&mut self, mode: u16, enable: bool)
        requires
            old(self).wf(),
        ensures
            final(self)@ == (ScreenView {
                input: input_after(old(self)@.input, mode, enable),
                output: output_after(old(self)@.output, mode, enable),
                ..old(self)@
            }),
            final(self).wf(),
    {
        self.input = switch_input(self.input, mode, enable);
        self.output = switch_output(self.output, mode, enable);
    }

    /// Enable or disable in-band size reports; enabling sends one at once.
    fn set_in_band_resize(&mut self, enable: bool)
        requires
            old(self).wf(),
        ensures
            final(self)@ == old(self)@.resize_reporting_set(enable),
            final(self).wf(),
    {
        reveal(ScreenView::resize_reporting_set);
        self.output.in_band_resize = enable;
        self.report_size();
    }

    /// Save the cursor and enter the alternate screen, or leave it and restore.
    fn switch_alt_saving(&mut self, enable: bool)
        requires
            old(self).wf(),
        ensures
            final(self)@ == old(self)@.switched_saving(enable),
            final(self).wf(),
    {
        reveal(ScreenView::switched_saving);
        if enable {
            self.save_cursor();
            self.switch_alt(true);
        } else {
            self.switch_alt(false);
            self.restore_cursor();
        }
    }

    fn set_origin_mode(&mut self, enable: bool)
        requires
            old(self).wf(),
        ensures
            final(self)@ == old(self)@.origin_set(enable),
            final(self).wf(),
    {
        reveal(ScreenView::origin_set);
        self.modes.origin_mode = enable;
        self.move_to(0, 0);
    }

    fn set_clustering(&mut self, enable: bool)
        requires
            old(self).wf(),
        ensures
            final(self)@ == old(self)@.clustering_set(enable),
            final(self).wf(),
    {
        self.modes.grapheme_clustering = enable;
        self.cluster.reset();
        self.cluster_anchor = None;
    }

    fn set_autowrap(&mut self, enable: bool)
        requires
            old(self).wf(),
        ensures
            final(self)@ == (ScreenView {
                modes: Modes { autowrap: enable, ..old(self)@.modes },
                ..old(self)@
            }),
            final(self).wf(),
    {
        self.modes.autowrap = enable;
    }

    fn set_blink(&mut self, enable: bool)
        requires
            old(self).wf(),
        ensures
            final(self)@ == (ScreenView {
                cursor_appearance: CursorAppearance {
                    blink: enable,
                    ..old(self)@.cursor_appearance
                },
                ..old(self)@
            }),
            final(self).wf(),
    {
        self.cursor_appearance.blink = enable;
    }

    fn set_mouse(&mut self, mode: u16, enable: bool)
        requires
            old(self).wf(),
        ensures
            final(self)@ == (ScreenView {
                mouse: mouse_after(old(self)@.mouse, mode, enable),
                ..old(self)@
            }),
            final(self).wf(),
    {
        self.mouse = switch_mouse(self.mouse, mode, enable);
    }

    /// Set or clear a mode that is a switch and nothing more.
    fn set_plain_mode(&mut self, mode: u16, enable: bool)
        requires
            old(self).wf(),
            mode != 6 && mode != 47 && mode != 1047 && mode != 1049 && mode != 2027 && mode != 2048,
        ensures
            final(self)@ == old(self)@.private_mode_set(mode, enable),
            final(self).wf(),
    {
        match mode {
            7 => self.set_autowrap(enable),
            12 => self.set_blink(enable),
            1000 | 1002 | 1003 | 1006 => self.set_mouse(mode, enable),
            _ => self.set_switch(mode, enable),
        }
    }

    fn set_private_mode(&mut self, mode: u16, enable: bool)
        requires
            old(self).wf(),
        ensures
            final(self)@ == old(self)@.private_mode_set(mode, enable),
            final(self).wf(),
    {
        match mode {
            6 => self.set_origin_mode(enable),
            47 | 1047 => self.switch_alt(enable),
            1049 => self.switch_alt_saving(enable),
            2027 => self.set_clustering(enable),
            2048 => self.set_in_band_resize(enable),
            _ => self.set_plain_mode(mode, enable),
        }
    }

    /// Set or reset a mode. `private` tells the DEC private modes from the ANSI ones.
    pub fn set_mode(&mut self, mode: u16, private: bool, enable: bool)
        requires
            old(self).wf(),
        ensures
            final(self)@ == old(self)@.mode_set(mode, private, enable),
            final(self).wf(),
    {
        if private {
            self.set_private_mode(mode, enable);
        } else if mode == 4 {
            self.modes.insert_mode = enable;
        }
    }

    /// Set or reset every mode of a parameter list.
    pub(crate) fn set_modes(&mut self, params: &Params, private: bool, enable: bool)
        requires
            old(self).wf(),
        ensures
            final(self)@ == old(self)@.modes_set(
                params@,
                params@.len() as int,
                private,
                enable,
            ),
            final(self).wf(),
    {
        let ghost start = self@;
        let mut i: usize = 0;
        while i < params.len()
            invariant
                i <= params@.len(),
                self.wf(),
                self@ == start.modes_set(params@, i as int, private, enable),
            decreases params@.len() - i,
        {
            self.set_mode(params.value(i), private, enable);
            i = i + 1;
        }
    }

    /// DECSCUSR: select the cursor's shape and whether it blinks. 0 restores the power-on
    /// look; an unknown parameter is ignored.
    pub fn set_cursor_style(&mut self, ps: u16)
        requires
            old(self).wf(),
        ensures
            final(self)@ == (ScreenView {
                cursor_appearance: match cursor_look(ps) {
                    Some(look) => look,
                    None => old(self)@.cursor_appearance,
                },
                ..old(self)@
            }),
            final(self).wf(),
    {
        self.cursor_appearance = match ps {
            0 => CursorAppearance::initial(),
            1 => CursorAppearance::new(CursorStyle::Block, true),
            2 => CursorAppearance::new(CursorStyle::Block, false),
            3 => CursorAppearance::new(CursorStyle::Underline, true),
            4 => CursorAppearance::new(CursorStyle::Underline, false),
            5 => CursorAppearance::new(CursorStyle::Bar, true),
            6 => CursorAppearance::new(CursorStyle::Bar, false),
            _ => {
                return;
            },
        };
    }

    /// DA: answer a program's "what are you?". Answering at all is the point: a program that
    /// asks and gets nothing can hang.
    pub fn device_attributes(&mut self, private: u8)
        requires
            old(self).wf(),
        ensures
            final(self)@ == old(self)@.attributes_reported(private),
            final(self).wf(),
    {
        match private {
            0 => self.respond_text("\x1b[?1;2c"),
            62 => self.respond_text("\x1b[>0;0;0c"),
            _ => {},
        }
    }

    /// The cursor position for a report: 1-based, relative to the scroll region when origin
    /// mode is on.
    fn report_position(&self) -> (r: (u32, u32))
        requires
            self.wf(),
        ensures
            r.0 == self@.reported_position().0,
            r.1 == self@.reported_position().1,
    {
        let b = self.active();
        let row: usize = if self.modes.origin_mode {
            b.cursor.row.saturating_sub(b.scroll_top)
        } else {
            b.cursor.row
        };
        (row as u32 + 1, b.cursor.col as u32 + 1)
    }

    /// Queue a report of the cursor position.
    fn respond_position(&mut self, open: &str, close: &str)
        requires
            old(self).wf(),
        ensures
            final(self)@ == old(self)@.responding(
                utf8(open@) + (decimal(old(self)@.reported_position().0 as nat) + utf8(";"@)
                    + decimal(old(self)@.reported_position().1 as nat)) + utf8(close@),
            ),
            final(self).wf(),
    {
        let (row, col) = self.report_position();
        self.respond_text(open);
        self.respond_number(row);
        self.respond_text(";");
        self.respond_number(col);
        self.respond_text(close);
        assert(self@.responses =~= old(self)@.responses + (utf8(open@) + (decimal(row as nat)
            + utf8(";"@) + decimal(col as nat)) + utf8(close@)));
    }

    /// DSR: whether all is well, and where the cursor is.
    pub fn device_status(&mut self, params: &Params, private: u8)
        requires
            old(self).wf(),
        ensures
            final(self)@ == old(self)@.status_reported(value_at(params@, 0), private),
            final(self).wf(),
    {
        let ps: u16 = params.value(0);
        if private == 0 && ps == 5 {
            self.respond_text("\x1b[0n");
        } else if private == 0 && ps == 6 {
            self.respond_position("\x1b[", "R");
        } else if private == 63 && ps == 6 {
            self.respond_position("\x1b[?", ";1R");
        }
    }

    /// RIS: hard reset to the power-on state, keeping the current dimensions. Identity moves
    /// forward across a reset, never back.
    pub fn reset(&mut self)
        requires
            old(self).wf(),
        ensures
            final(self)@ == old(self)@.hard_reset(),
            final(self).wf(),
    {
        let (cols, rows) = self.dimensions();
        let epoch = self.epoch.next();
        *self = Screen::new(cols, rows);
        self.epoch = epoch;
    }

    /// DECSTR: soft reset. The settings go back to their defaults; the screen, the
    /// scrollback and the cursor position are left alone. Autowrap stays on.
    pub fn soft_reset(&mut self)
        requires
            old(self).wf(),
        ensures
            final(self)@ == old(self)@.soft_reset(),
            final(self).wf(),
    {
        let b = self.active_mut();
        b.saved = None;
        b.scroll_top = 0;
        b.scroll_bottom = b.rows - 1;
        b.cursor.pending_wrap = false;
        self.pen = Pen::initial();
        proof {
            crate::attrs::lemma_wide_bits(self.pen.attrs);
        }
        self.output.cursor_visible = true;
        self.modes.insert_mode = false;
        self.modes.origin_mode = false;
        self.modes.autowrap = true;
        self.input.app_cursor_keys = false;
        self.input.keypad_app = false;
        self.charsets = Charsets::initial();
    }
}

/// A mode reads back as it was set, for every mode there is an answer for; and one there is
/// no answer for changes nothing. What is set and what is reported cannot disagree.
pub proof fn lemma_mode_reads_back(s: ScreenView, mode: u16, private: bool, enable: bool)
    ensures
        s.mode_state(mode, private) is Some ==> s.mode_set(mode, private, enable).mode_state(
            mode,
            private,
        ) == Some(enable),
        s.mode_state(mode, private) is None ==> s.mode_set(mode, private, enable) == s,
{
    if private && mode == 6 {
        reveal(ScreenView::origin_set);
    } else if private && (mode == 47 || mode == 1047) {
        reveal(ScreenView::switched);
    } else if private && mode == 1049 {
        reveal(ScreenView::switched_saving);
        reveal(ScreenView::switched);
    } else if private && mode == 2048 {
        reveal(ScreenView::resize_reporting_set);
    }
}

/// Switching to the other screen and back keeps what is on the primary, carries the cursor
/// both ways, and leaves the epoch one was in.
pub proof fn lemma_alt_round_trip(s: ScreenView)
    requires
        s.wf(),
        !s.on_alt,
    ensures
        s.switched(true).on_alt,
        s.switched(true).active().cursor == s.active().cursor,
        s.switched(true).switched(false).primary == s.primary,
        !s.switched(true).switched(false).on_alt,
        s.switched(true).epoch != s.epoch,
        s.switched(true).wf(),
{
    reveal(ScreenView::switched);
    crate::ids::lemma_epoch_moves(s.epoch);
    let t = s.switched(true);
    assert(t.switched(false).primary =~= s.primary);
    crate::cell::lemma_plain_cell(s.blank());
    crate::row::lemma_filled_wf(s.alt.cols as int, s.blank());
}

} // verus!
