//! The interpretation: what a byte-stream parser read, turned into operations on the screen.
use vstd::prelude::*;
use crate::buffer::least;
use crate::cell::{Charset, Charsets};
use crate::edit::at_least_one;
use crate::fields::{fields, head, split_head, tail};
use crate::modes::{cursor_look};
use crate::osc::{is_text, NamedColor};
use crate::query::capability_replies;
use crate::screen::{InputModes, Screen, ScreenView};
use crate::text::{bytes_text, lossy_text, utf8};
use crate::vt::{value_at, Params, Perform};

verus! {

/// The set a designation selects: `0` is line drawing, and anything else is ASCII.
pub open spec fn charset_of(byte: u8) -> Charset {
    if byte == 48 {
        Charset::DecSpecialGraphics
    } else {
        Charset::Ascii
    }
}

/// The line-drawing glyph of a character; one outside the set is itself.
pub open spec fn line_drawing(c: char) -> char {
    if c == '_' {
        ' '
    } else if c == '`' {
        '\u{25c6}'
    } else if c == 'a' {
        '\u{2592}'
    } else if c == 'b' {
        '\u{2409}'
    } else if c == 'c' {
        '\u{240c}'
    } else if c == 'd' {
        '\u{240d}'
    } else if c == 'e' {
        '\u{240a}'
    } else if c == 'f' {
        '\u{b0}'
    } else if c == 'g' {
        '\u{b1}'
    } else if c == 'h' {
        '\u{2424}'
    } else if c == 'i' {
        '\u{240b}'
    } else if c == 'j' {
        '\u{2518}'
    } else if c == 'k' {
        '\u{2510}'
    } else if c == 'l' {
        '\u{250c}'
    } else if c == 'm' {
        '\u{2514}'
    } else if c == 'n' {
        '\u{253c}'
    } else if c == 'o' {
        '\u{23ba}'
    } else if c == 'p' {
        '\u{23bb}'
    } else if c == 'q' {
        '\u{2500}'
    } else if c == 'r' {
        '\u{23bc}'
    } else if c == 's' {
        '\u{23bd}'
    } else if c == 't' {
        '\u{251c}'
    } else if c == 'u' {
        '\u{2524}'
    } else if c == 'v' {
        '\u{2534}'
    } else if c == 'w' {
        '\u{252c}'
    } else if c == 'x' {
        '\u{2502}'
    } else if c == 'y' {
        '\u{2264}'
    } else if c == 'z' {
        '\u{2265}'
    } else if c == '{' {
        '\u{3c0}'
    } else if c == '|' {
        '\u{2260}'
    } else if c == '}' {
        '\u{a3}'
    } else if c == '~' {
        '\u{b7}'
    } else {
        c
    }
}

/// The character set in use.
pub open spec fn charset_in_use(c: Charsets) -> Charset {
    if c.gl_is_g1 {
        c.g1
    } else {
        c.g0
    }
}

/// A character read through the set in use.
#[verifier::opaque]
pub open spec fn mapped(c: char, sets: Charsets) -> char {
    match charset_in_use(sets) {
        Charset::Ascii => c,
        Charset::DecSpecialGraphics => line_drawing(c),
    }
}

/// Characters read through the set in use.
pub open spec fn mapped_all(chars: Seq<char>, sets: Charsets) -> Seq<char> {
    chars.map_values(|c: char| mapped(c, sets))
}

/// A count: absent or 0 means 1.
pub open spec fn count_at(params: Seq<Seq<u16>>, i: int) -> int {
    at_least_one(value_at(params, i) as int)
}

/// A 1-based position as a 0-based index: absent or 0 means the first.
pub open spec fn index_at(params: Seq<Seq<u16>>, i: int) -> int {
    at_least_one(value_at(params, i) as int) - 1
}

impl ScreenView {
    /// Text printed through the character set in use.
    pub open spec fn text_printed(self, chars: Seq<char>) -> ScreenView {
        self.printed_all(mapped_all(chars, self.charsets))
    }

    /// What a control byte does, but for what all of them do.
    pub open spec fn control_done(self, byte: u8) -> ScreenView {
        if byte == 8 {
            self.backspaced()
        } else if byte == 9 {
            self.tabbed(1)
        } else if 10 <= byte <= 12 {
            self.line_fed()
        } else if byte == 13 {
            self.returned()
        } else if byte == 14 {
            ScreenView { charsets: Charsets { gl_is_g1: true, ..self.charsets }, ..self }
        } else if byte == 15 {
            ScreenView { charsets: Charsets { gl_is_g1: false, ..self.charsets }, ..self }
        } else if byte == 7 {
            ScreenView { bell: true, ..self }
        } else {
            self
        }
    }

    /// A control byte executed. It was not printing, so nothing is left to repeat.
    pub open spec fn executed(self, byte: u8) -> ScreenView {
        ScreenView { last_printed: None, ..self.control_done(byte) }
    }

    /// A control sequence with an intermediate byte.
    pub open spec fn csi_intermediate(
        self,
        params: Seq<Seq<u16>>,
        inter: Seq<u8>,
        private: u8,
        action: u8,
    ) -> ScreenView {
        if inter == seq![33u8] && private == 0 && action == 112 {
            self.soft_reset()
        } else if inter == seq![36u8] && private == 0 && action == 112 {
            self.responding(self.mode_report(value_at(params, 0), false))
        } else if inter == seq![36u8] && private == 63 && action == 112 {
            self.responding(self.mode_report(value_at(params, 0), true))
        } else if inter == seq![32u8] && private == 0 && action == 113 {
            ScreenView {
                cursor_appearance: match cursor_look(value_at(params, 0)) {
                    Some(look) => look,
                    None => self.cursor_appearance,
                },
                ..self
            }
        } else {
            self
        }
    }

    /// A control sequence with a private marker. The marker selects a different sequence; it
    /// does not modify the one that shares its final byte.
    pub open spec fn csi_private(
        self,
        params: Seq<Seq<u16>>,
        private: u8,
        action: u8,
    ) -> ScreenView {
        if private == 63 && action == 104 {
            self.modes_set(params, params.len() as int, true, true)
        } else if private == 63 && action == 108 {
            self.modes_set(params, params.len() as int, true, false)
        } else if private == 63 && action == 110 {
            self.status_reported(value_at(params, 0), 63)
        } else if private == 62 && action == 99 {
            self.attributes_reported(62)
        } else if private == 62 && action == 109 {
            self.modify_keys_asked(params)
        } else if private == 62 && action == 113 {
            self.version_reported()
        } else if action == 117 {
            self.kitty_asked(params, private)
        } else {
            self
        }
    }

    /// The version told.
    pub open spec fn version_reported(self) -> ScreenView {
        self.responding(
            utf8("\x1bP>|bnkterm "@) + utf8(crate::query::VERSION@) + utf8("\x1b\\"@),
        )
    }

    /// The sequences that move the cursor.
    pub open spec fn csi_move(self, params: Seq<Seq<u16>>, action: u8) -> ScreenView {
        let b = self.active();
        let n = count_at(params, 0);
        if action == 65 {
            self.with_active(b.moved_up(n))
        } else if action == 66 {
            self.with_active(b.moved_down(n))
        } else if action == 67 {
            self.with_active(b.moved_forward(n))
        } else if action == 68 {
            self.with_active(b.moved_back(n))
        } else if action == 69 {
            self.with_active(b.moved_down(n)).returned()
        } else if action == 70 {
            self.with_active(b.moved_up(n)).returned()
        } else if action == 71 || action == 96 {
            self.with_active(b.at(b.cursor.row as int, least(index_at(params, 0), b.cols - 1)))
        } else if action == 72 || action == 102 {
            self.moved_to(index_at(params, 0), index_at(params, 1))
        } else if action == 100 {
            self.moved_to(index_at(params, 0), b.cursor.col as int)
        } else if action == 73 {
            self.tabbed(n)
        } else {
            self.with_active(b.back_tabbed(n))
        }
    }

    /// The sequences that rewrite cells.
    pub open spec fn csi_edit(self, params: Seq<Seq<u16>>, action: u8) -> ScreenView {
        let b = self.active();
        let n = count_at(params, 0);
        if action == 98 {
            self.repeated(n)
        } else if action == 74 {
            self.display_erased(value_at(params, 0))
        } else if action == 75 {
            self.with_active(b.line_erased(value_at(params, 0), self.blank()))
        } else if action == 76 {
            self.lines_inserted(n)
        } else if action == 77 {
            self.lines_deleted(n)
        } else if action == 64 {
            self.with_active(b.chars_inserted(n, self.blank()))
        } else if action == 80 {
            self.with_active(b.chars_deleted(n, self.blank()))
        } else if action == 88 {
            self.with_active(b.chars_erased(n, self.blank()))
        } else if action == 83 {
            self.scrolled_up(n)
        } else if params.len() == 5 {
            // Mouse highlight tracking, which shares the final byte of the scroll.
            self
        } else {
            self.scrolled_down(n)
        }
    }

    /// The scroll region a sequence asks for; a missing or zero bottom is the last row.
    pub open spec fn region_asked(self, params: Seq<Seq<u16>>) -> ScreenView {
        let v = value_at(params, 1);
        self.with_region(
            index_at(params, 0),
            if v == 0 {
                self.active().rows - 1
            } else {
                v - 1
            },
        )
    }

    /// The remaining sequences: settings, reports, and the saved cursor.
    pub open spec fn csi_other(self, params: Seq<Seq<u16>>, action: u8) -> ScreenView {
        if action == 114 {
            self.region_asked(params)
        } else if action == 109 {
            ScreenView { pen: self.pen.rendered(params), ..self }
        } else if action == 104 {
            self.modes_set(params, params.len() as int, false, true)
        } else if action == 108 {
            self.modes_set(params, params.len() as int, false, false)
        } else if action == 115 && params.len() == 0 {
            self.cursor_saved()
        } else if action == 117 && params.len() == 0 {
            self.cursor_restored()
        } else if action == 103 {
            self.with_active(self.active().stops_cleared(value_at(params, 0)))
        } else if action == 99 {
            self.attributes_reported(0)
        } else if action == 110 {
            self.status_reported(value_at(params, 0), 0)
        } else {
            self
        }
    }

    /// A control sequence. One that is not known is dropped: guessing is never safe.
    pub open spec fn csi_done(
        self,
        params: Seq<Seq<u16>>,
        inter: Seq<u8>,
        private: u8,
        action: u8,
    ) -> ScreenView {
        if inter.len() > 0 {
            self.csi_intermediate(params, inter, private, action)
        } else if private != 0 {
            self.csi_private(params, private, action)
        } else if is_move(action) {
            self.csi_move(params, action)
        } else if is_edit(action) {
            self.csi_edit(params, action)
        } else {
            self.csi_other(params, action)
        }
    }

    /// An escape sequence.
    pub open spec fn esc_done(self, inter: Seq<u8>, byte: u8) -> ScreenView {
        if inter.len() == 0 {
            if byte == 99 {
                self.hard_reset()
            } else if byte == 68 {
                self.line_fed()
            } else if byte == 69 {
                self.line_fed().returned()
            } else if byte == 72 {
                self.with_active(self.active().with_stop(true))
            } else if byte == 77 {
                self.reverse_indexed()
            } else if byte == 55 {
                self.cursor_saved()
            } else if byte == 56 {
                self.cursor_restored()
            } else if byte == 61 {
                ScreenView { input: InputModes { keypad_app: true, ..self.input }, ..self }
            } else if byte == 62 {
                ScreenView { input: InputModes { keypad_app: false, ..self.input }, ..self }
            } else {
                self
            }
        } else if inter[0] == 40 {
            ScreenView { charsets: Charsets { g0: charset_of(byte), ..self.charsets }, ..self }
        } else if inter[0] == 41 {
            ScreenView { charsets: Charsets { g1: charset_of(byte), ..self.charsets }, ..self }
        } else if inter[0] == 35 && byte == 56 {
            self.aligned()
        } else {
            self
        }
    }

    /// A device control string: the two questions asked in one.
    pub open spec fn dcs_done(self, inter: Seq<u8>, action: u8, data: Seq<u8>) -> ScreenView {
        if inter == seq![36u8] && action == 113 {
            self.responding(self.setting_reply(data))
        } else if inter == seq![43u8] && action == 113 {
            self.responding(capability_replies(fields(data, 59)))
        } else {
            self
        }
    }

    /// One of the named colours back at its default.
    pub open spec fn named_reset(self, which: NamedColor) -> ScreenView {
        ScreenView {
            theme: self.theme.with_named(which, crate::color::default_theme().named(which)),
            ..self
        }
    }

    /// The commands about colours.
    pub open spec fn colors_commanded(self, ps: Seq<u8>, pt: Seq<u8>, bel: bool) -> ScreenView {
        if ps == utf8("4"@) {
            self.palette_asked(fields(pt, 59), bel)
        } else if ps == utf8("10"@) {
            self.colors_asked(Some(NamedColor::Foreground), fields(pt, 59), bel)
        } else if ps == utf8("11"@) {
            self.colors_asked(Some(NamedColor::Background), fields(pt, 59), bel)
        } else if ps == utf8("12"@) {
            self.colors_asked(Some(NamedColor::Cursor), fields(pt, 59), bel)
        } else if ps == utf8("104"@) {
            self.palette_reset(pt)
        } else if ps == utf8("110"@) {
            self.named_reset(NamedColor::Foreground)
        } else if ps == utf8("111"@) {
            self.named_reset(NamedColor::Background)
        } else {
            self.named_reset(NamedColor::Cursor)
        }
    }

    /// The commands about the title, the shell, links and the clipboard.
    pub open spec fn others_commanded(self, ps: Seq<u8>, pt: Seq<u8>) -> ScreenView {
        if ps == utf8("0"@) || ps == utf8("2"@) {
            ScreenView { title: lossy_text(pt), ..self }
        } else if ps == utf8("7"@) {
            self.cwd_reported(pt)
        } else if ps == utf8("8"@) {
            self.hyperlink_set(pt)
        } else if ps == utf8("52"@) {
            self.clipboard_set(pt)
        } else if ps == utf8("133"@) {
            self.shell_marked(pt)
        } else {
            self
        }
    }

    /// An operating-system command: a number, and what it is about.
    pub open spec fn osc_done(self, data: Seq<u8>, bel: bool) -> ScreenView {
        let ps = head(data, 59);
        let pt = tail(data, 59);
        if color_command(ps) {
            self.colors_commanded(ps, pt, bel)
        } else {
            self.others_commanded(ps, pt)
        }
    }
}

/// The numbers of the commands about colours.
pub open spec fn color_command(ps: Seq<u8>) -> bool {
    ps == utf8("4"@) || ps == utf8("10"@) || ps == utf8("11"@) || ps == utf8("12"@) || ps == utf8(
        "104"@,
    ) || ps == utf8("110"@) || ps == utf8("111"@) || ps == utf8("112"@)
}

/// The final bytes of the sequences that move the cursor.
pub open spec fn is_move(action: u8) -> bool {
    65 <= action <= 73 || action == 96 || action == 102 || action == 100 || action == 90
}

/// The final bytes of the sequences that rewrite cells.
pub open spec fn is_edit(action: u8) -> bool {
    action == 98 || 74 <= action <= 77 || action == 64 || action == 80 || action == 88 || action
        == 83 || action == 84
}

/// The charset a designation selects.
pub fn charset_from(byte: u8) -> (r: Charset)
    ensures
        r == charset_of(byte),
{
    if byte == 48 {
        Charset::DecSpecialGraphics
    } else {
        Charset::Ascii
    }
}

/// The line-drawing glyph of a character; any other passes through unchanged. The underscore
/// position is blank in this set.
pub fn dec_special_graphics(c: char) -> (r: char)
    ensures
        r == line_drawing(c),
{
    match c {
        '_' => ' ',
        '`' => '\u{25c6}',
        'a' => '\u{2592}',
        'b' => '\u{2409}',
        'c' => '\u{240c}',
        'd' => '\u{240d}',
        'e' => '\u{240a}',
        'f' => '\u{b0}',
        'g' => '\u{b1}',
        'h' => '\u{2424}',
        'i' => '\u{240b}',
        'j' => '\u{2518}',
        'k' => '\u{2510}',
        'l' => '\u{250c}',
        'm' => '\u{2514}',
        'n' => '\u{253c}',
        'o' => '\u{23ba}',
        'p' => '\u{23bb}',
        'q' => '\u{2500}',
        'r' => '\u{23bc}',
        's' => '\u{23bd}',
        't' => '\u{251c}',
        'u' => '\u{2524}',
        'v' => '\u{2534}',
        'w' => '\u{252c}',
        'x' => '\u{2502}',
        'y' => '\u{2264}',
        'z' => '\u{2265}',
        '{' => '\u{3c0}',
        '|' => '\u{2260}',
        '}' => '\u{a3}',
        '~' => '\u{b7}',
        _ => c,
    }
}

fn csi_count(params: &Params, i: usize) -> (r: usize)
    ensures
        r == count_at(params@, i as int),
{
    let v: u16 = params.value(i);
    if v < 1 {
        1
    } else {
        v as usize
    }
}

fn csi_index(params: &Params, i: usize) -> (r: usize)
    ensures
        r == index_at(params@, i as int),
{
    let v: u16 = params.value(i);
    if v < 1 {
        0
    } else {
        v as usize - 1
    }
}

fn is_one_byte(s: &[u8], b: u8) -> (r: bool)
    ensures
        r == (s@ == seq![b]),
{
    if s.len() == 1 && s[0] == b {
        assert(s@ =~= seq![b]);
        true
    } else {
        proof {
            if s@ == seq![b] {
                assert(s@.len() == 1 && s@[0] == b);
            }
        }
        false
    }
}

/// Where the set in use is ASCII, characters are themselves.
proof fn lemma_mapped_ascii(chars: Seq<char>, sets: Charsets)
    requires
        charset_in_use(sets) == Charset::Ascii,
    ensures
        mapped_all(chars, sets) == chars,
{
    reveal(mapped);
    assert(mapped_all(chars, sets) =~= chars);
}

impl Screen {
    fn map_glyph(&self, c: char) -> (r: char)
        ensures
            r == mapped(c, self@.charsets),
    {
        reveal(mapped);
        let set = if self.charsets.gl_is_g1 {
            self.charsets.g1
        } else {
            self.charsets.g0
        };
        match set {
            Charset::Ascii => c,
            Charset::DecSpecialGraphics => dec_special_graphics(c),
        }
    }

    /// Whether text can go through the bulk paths: the set in use is ASCII, nothing is
    /// shifted, and every scalar is a glyph of its own.
    fn prints_in_bulk(&self) -> (r: bool)
        ensures
            r == (charset_in_use(self@.charsets) == Charset::Ascii && !self@.modes.insert_mode
                && !self@.modes.grapheme_clustering),
    {
        let set = if self.charsets.gl_is_g1 {
            self.charsets.g1
        } else {
            self.charsets.g0
        };
        let ascii: bool = match set {
            Charset::Ascii => true,
            Charset::DecSpecialGraphics => false,
        };
        ascii && !self.modes.insert_mode && !self.modes.grapheme_clustering
    }

    fn csi_intermediate(&mut self, params: &Params, inter: &[u8], private: u8, action: u8)
        requires
            old(self).wf(),
        ensures
            final(self)@ == old(self)@.csi_intermediate(params@, inter@, private, action),
            final(self).wf(),
    {
        if is_one_byte(inter, 33) && private == 0 && action == 112 {
            self.soft_reset();
        } else if is_one_byte(inter, 36) && private == 0 && action == 112 {
            self.report_mode(params.value(0), false);
        } else if is_one_byte(inter, 36) && private == 63 && action == 112 {
            self.report_mode(params.value(0), true);
        } else if is_one_byte(inter, 32) && private == 0 && action == 113 {
            self.set_cursor_style(params.value(0));
        }
    }

    fn csi_private(&mut self, params: &Params, private: u8, action: u8)
        requires
            old(self).wf(),
        ensures
            final(self)@ == old(self)@.csi_private(params@, private, action),
            final(self).wf(),
    {
        match (private, action) {
            (63, 104) => self.set_modes(params, true, true),
            (63, 108) => self.set_modes(params, true, false),
            (63, 110) => self.device_status(params, 63),
            (62, 99) => self.device_attributes(62),
            (62, 109) => self.xtmodkeys(params),
            (62, 113) => self.xtversion(),
            (_, 117) => self.kitty_keyboard(params, private),
            _ => {},
        }
    }

    fn tabs(&mut self, n: usize)
        requires
            old(self).wf(),
        ensures
            final(self)@ == old(self)@.tabbed(n as int),
            final(self).wf(),
    {
        let ghost start = self@;
        let mut i: usize = 0;
        while i < n
            invariant
                i <= n,
                self.wf(),
                self@ == start.tabbed(i as int),
            decreases n - i,
        {
            self.tab();
            i = i + 1;
        }
    }

    fn csi_move(&mut self, params: &Params, action: u8)
        requires
            old(self).wf(),
            is_move(action),
        ensures
            final(self)@ == old(self)@.csi_move(params@, action),
            final(self).wf(),
    {
        let n: usize = csi_count(params, 0);
        match action {
            65 => self.move_up(n),
            66 => self.move_down(n),
            67 => self.move_forward(n),
            68 => self.move_back(n),
            69 => {
                self.move_down(n);
                self.carriage_return();
            },
            70 => {
                self.move_up(n);
                self.carriage_return();
            },
            71 | 96 => self.move_to_col(csi_index(params, 0)),
            72 | 102 => self.move_to(csi_index(params, 0), csi_index(params, 1)),
            100 => self.move_to_row(csi_index(params, 0)),
            73 => self.tabs(n),
            _ => self.back_tab(n),
        }
    }

    fn csi_edit(&mut self, params: &Params, action: u8)
        requires
            old(self).wf(),
            is_edit(action),
        ensures
            final(self)@ == old(self)@.csi_edit(params@, action),
            final(self).wf(),
    {
        let n: usize = csi_count(params, 0);
        match action {
            98 => self.repeat_last(n),
            74 => self.erase_display(params.value(0)),
            75 => self.erase_line(params.value(0)),
            76 => self.insert_lines(n),
            77 => self.delete_lines(n),
            64 => self.insert_chars(n),
            80 => self.delete_chars(n),
            88 => self.erase_chars(n),
            83 => self.scroll_up(n),
            _ => {
                if params.len() != 5 {
                    self.scroll_down(n);
                }
            },
        }
    }

    fn set_region(&mut self, params: &Params)
        requires
            old(self).wf(),
        ensures
            final(self)@ == old(self)@.region_asked(params@),
            final(self).wf(),
    {
        let rows: usize = self.dimensions().1;
        let v: u16 = params.value(1);
        let bottom: usize = if v == 0 {
            rows - 1
        } else {
            v as usize - 1
        };
        self.set_scroll_region(csi_index(params, 0), bottom);
    }

    fn csi_other(&mut self, params: &Params, action: u8)
        requires
            old(self).wf(),
        ensures
            final(self)@ == old(self)@.csi_other(params@, action),
            final(self).wf(),
    {
        match action {
            114 => self.set_region(params),
            109 => self.sgr(params),
            104 => self.set_modes(params, false, true),
            108 => self.set_modes(params, false, false),
            115 => {
                if params.is_empty() {
                    self.save_cursor();
                }
            },
            117 => {
                if params.is_empty() {
                    self.restore_cursor();
                }
            },
            103 => self.clear_tab_stop(params.value(0)),
            99 => self.device_attributes(0),
            110 => self.device_status(params, 0),
            _ => {},
        }
    }

    /// Characters read through the set in use.
    fn map_glyphs(&self, chars: &[char]) -> (r: Vec<char>)
        ensures
            r@ == mapped_all(chars@, self@.charsets),
    {
        let mut out: Vec<char> = Vec::new();
        let mut i: usize = 0;
        while i < chars.len()
            invariant
                i <= chars@.len(),
                out@.len() == i,
                forall|j: int|
                    0 <= j < i ==> #[trigger] out@[j] == mapped(chars@[j], self@.charsets),
            decreases chars.len() - i,
        {
            out.push(self.map_glyph(chars[i]));
            i = i + 1;
        }
        assert(out@ =~= mapped_all(chars@, self@.charsets));
        out
    }

    /// Print scalars one by one.
    fn print_each(&mut self, chars: &Vec<char>)
        requires
            old(self).wf(),
        ensures
            final(self)@ == old(self)@.printed_all(chars@),
            final(self).wf(),
    {
        let ghost start = self@;
        let mut i: usize = 0;
        assert(chars@.take(0) =~= Seq::empty());
        while i < chars.len()
            invariant
                i <= chars@.len(),
                self.wf(),
                self@ == start.printed_all(chars@.take(i as int)),
            decreases chars.len() - i,
        {
            assert(chars@.take(i + 1).drop_last() =~= chars@.take(i as int));
            self.print(chars[i]);
            i = i + 1;
        }
        assert(chars@.take(i as int) =~= chars@);
    }

    fn do_control(&mut self, byte: u8)
        requires
            old(self).wf(),
        ensures
            final(self)@ == old(self)@.control_done(byte),
            final(self).wf(),
    {
        match byte {
            8 => self.backspace(),
            9 => self.tabs(1),
            10 | 11 | 12 => self.line_feed(),
            13 => self.carriage_return(),
            14 => self.shift_to(true),
            15 => self.shift_to(false),
            7 => self.bell = true,
            _ => {},
        }
    }

    /// Select G1 or G0.
    fn shift_to(&mut self, g1: bool)
        requires
            old(self).wf(),
        ensures
            final(self)@ == (ScreenView {
                charsets: Charsets { gl_is_g1: g1, ..old(self)@.charsets },
                ..old(self)@
            }),
            final(self).wf(),
    {
        self.charsets.gl_is_g1 = g1;
    }

    /// Designate G1 or G0.
    fn designate(&mut self, g1: bool, byte: u8)
        requires
            old(self).wf(),
        ensures
            final(self)@ == (ScreenView {
                charsets: if g1 {
                    Charsets { g1: charset_of(byte), ..old(self)@.charsets }
                } else {
                    Charsets { g0: charset_of(byte), ..old(self)@.charsets }
                },
                ..old(self)@
            }),
            final(self).wf(),
    {
        if g1 {
            self.charsets.g1 = charset_from(byte);
        } else {
            self.charsets.g0 = charset_from(byte);
        }
    }

    fn set_keypad(&mut self, on: bool)
        requires
            old(self).wf(),
        ensures
            final(self)@ == (ScreenView {
                input: InputModes { keypad_app: on, ..old(self)@.input },
                ..old(self)@
            }),
            final(self).wf(),
    {
        self.input.keypad_app = on;
    }

    fn do_escape(&mut self, byte: u8)
        requires
            old(self).wf(),
        ensures
            final(self)@ == old(self)@.esc_done(Seq::empty(), byte),
            final(self).wf(),
    {
        match byte {
            99 => self.reset(),
            68 => self.line_feed(),
            69 => self.next_line(),
            72 => self.set_tab_stop(),
            77 => self.reverse_index(),
            55 => self.save_cursor(),
            56 => self.restore_cursor(),
            61 => self.set_keypad(true),
            62 => self.set_keypad(false),
            _ => {},
        }
    }

    /// The commands about colours.
    fn osc_colors(&mut self, ps: &[u8], pt: &[u8], bel: bool) -> (done: bool)
        requires
            old(self).wf(),
        ensures
            done == color_command(ps@),
            done ==> final(self)@ == old(self)@.colors_commanded(ps@, pt@, bel),
            !done ==> final(self)@ == old(self)@,
            final(self).wf(),
    {
        if is_text(ps, "4") {
            self.osc_palette(pt, bel);
        } else if is_text(ps, "10") {
            self.osc_named_color(NamedColor::Foreground, pt, bel);
        } else if is_text(ps, "11") {
            self.osc_named_color(NamedColor::Background, pt, bel);
        } else if is_text(ps, "12") {
            self.osc_named_color(NamedColor::Cursor, pt, bel);
        } else if is_text(ps, "104") {
            self.osc_reset_palette(pt);
        } else if is_text(ps, "110") {
            self.reset_named_color(NamedColor::Foreground);
        } else if is_text(ps, "111") {
            self.reset_named_color(NamedColor::Background);
        } else if is_text(ps, "112") {
            self.reset_named_color(NamedColor::Cursor);
        } else {
            return false;
        }
        true
    }

    /// The commands about anything else.
    fn osc_others(&mut self, ps: &[u8], pt: &[u8])
        requires
            old(self).wf(),
        ensures
            final(self)@ == old(self)@.others_commanded(ps@, pt@),
            final(self).wf(),
    {
        if is_text(ps, "0") || is_text(ps, "2") {
            self.set_title_bytes(pt);
        } else if is_text(ps, "7") {
            self.osc_cwd(pt);
        } else if is_text(ps, "8") {
            self.set_hyperlink(pt);
        } else if is_text(ps, "52") {
            self.osc_clipboard(pt);
        } else if is_text(ps, "133") {
            self.osc_shell_mark(pt);
        }
    }
}

impl Perform for Screen {
    open spec fn ready(&self) -> bool {
        self.wf()
    }

    fn print(&mut self, c: char)
        ensures
            final(self)@ == old(self)@.printed(mapped(c, old(self)@.charsets)),
    {
        let glyph = self.map_glyph(c);
        Screen::print(self, glyph);
    }

    fn print_run(&mut self, chars: &[char])
        ensures
            final(self)@ == old(self)@.text_printed(chars@),
    {
        if self.prints_in_bulk() {
            proof {
                lemma_mapped_ascii(chars@, self@.charsets);
            }
            self.print_text_run(chars);
        } else {
            let glyphs = self.map_glyphs(chars);
            self.print_each(&glyphs);
        }
    }

    fn print_ascii(&mut self, bytes: &[u8])
        ensures
            final(self)@ == old(self)@.text_printed(bytes_text(bytes@)),
    {
        // Under clustering a byte is not its own glyph: it may be the base of a cluster that
        // the next scalar joins and widens.
        if self.prints_in_bulk() {
            proof {
                lemma_mapped_ascii(bytes_text(bytes@), self@.charsets);
            }
            self.print_ascii_run(bytes);
        } else {
            let mut chars: Vec<char> = Vec::new();
            let mut i: usize = 0;
            while i < bytes.len()
                invariant
                    i <= bytes@.len(),
                    chars@ == bytes_text(bytes@).take(i as int),
                decreases bytes.len() - i,
            {
                chars.push(bytes[i] as char);
                i = i + 1;
                assert(chars@ =~= bytes_text(bytes@).take(i as int));
            }
            assert(chars@ =~= bytes_text(bytes@));
            let glyphs = self.map_glyphs(chars.as_slice());
            self.print_each(&glyphs);
        }
    }

    fn execute(&mut self, byte: u8)
        ensures
            final(self)@ == old(self)@.executed(byte),
    {
        self.do_control(byte);
        self.last_printed = None;
    }

    fn csi_dispatch(&mut self, params: &Params, intermediates: &[u8], private: u8, action: u8)
        ensures
            final(self)@ == old(self)@.csi_done(params@, intermediates@, private, action),
    {
        if intermediates.len() > 0 {
            self.csi_intermediate(params, intermediates, private, action);
        } else if private != 0 {
            self.csi_private(params, private, action);
        } else if (65 <= action && action <= 73) || action == 96 || action == 102 || action == 100
            || action == 90 {
            self.csi_move(params, action);
        } else if action == 98 || (74 <= action && action <= 77) || action == 64 || action == 80
            || action == 88 || action == 83 || action == 84 {
            self.csi_edit(params, action);
        } else {
            self.csi_other(params, action);
        }
    }

    fn esc_dispatch(&mut self, intermediates: &[u8], byte: u8)
        ensures
            final(self)@ == old(self)@.esc_done(intermediates@, byte),
    {
        if intermediates.len() == 0 {
            assert(intermediates@ =~= Seq::empty());
            self.do_escape(byte);
            return;
        }
        match intermediates[0] {
            40 => self.designate(false, byte),
            41 => self.designate(true, byte),
            35 => {
                if byte == 56 {
                    self.decaln();
                }
            },
            _ => {},
        }
    }

    fn dcs_dispatch(&mut self, params: &Params, intermediates: &[u8], action: u8, data: &[u8])
        ensures
            final(self)@ == old(self)@.dcs_done(intermediates@, action, data@),
    {
        if is_one_byte(intermediates, 36) && action == 113 {
            self.decrqss(data);
        } else if is_one_byte(intermediates, 43) && action == 113 {
            self.xtgettcap(data);
        }
    }

    fn osc_dispatch(&mut self, data: &[u8], bel_terminated: bool)
        ensures
            final(self)@ == old(self)@.osc_done(data@, bel_terminated),
    {
        let (ps, pt) = split_head(data, 59);
        if !self.osc_colors(ps, pt, bel_terminated) {
            self.osc_others(ps, pt);
        }
    }
}

} // verus!
