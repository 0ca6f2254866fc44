//! The terminal screen: a primary and an alternate buffer, the pen, and the terminal-wide
//! modes, with the accessors a renderer reads it through.
//!
//! [`ScreenView`] is the whole state as a value. Every operation in this crate says what it
//! does by naming the value that comes after it, so the contracts compose the way the
//! operations do.
use vstd::prelude::*;
use crate::attrs::Attrs;
use crate::buffer::{Buffer, BufferView, DEFAULT_SCROLLBACK, MAX_SIDE};
use crate::cell::{narrow_cell, Cell, Charsets, LinkId, Pen};
use crate::color::{default_theme, Color, Theme, ThemeView};
use crate::grapheme::BreakState;
use crate::ids::{AbsRow, RowEpoch};
use crate::input::{KittyFlags, ModifyOtherKeys};
use crate::links::{distinct, LinkTable, LINK_LIMIT};
use crate::mouse::MouseMode;

verus! {

/// How deep the kitty keyboard stack may go before a push starts dropping the oldest entry.
pub const KITTY_STACK_LIMIT: usize = 16;

/// How many prompts are remembered.
pub const PROMPT_LIMIT: usize = 4096;

/// The cursor's drawn shape. Whether it blinks is tracked separately.
#[derive(Clone, Copy, PartialEq, Eq, Debug, Structural)]
pub enum CursorStyle {
    Block,
    Underline,
    Bar,
}

impl Default for CursorStyle {
    fn default() -> (r: CursorStyle)
        ensures
            r == CursorStyle::Block,
    {
        CursorStyle::Block
    }
}

/// How the cursor looks: its shape and whether it blinks.
#[derive(Clone, Copy, PartialEq, Eq, Debug, Structural)]
pub struct CursorAppearance {
    pub style: CursorStyle,
    pub blink: bool,
}

impl CursorAppearance {
    /// A cursor of this shape.
    #[verifier::allow_in_spec]
    pub fn new(style: CursorStyle, blink: bool) -> CursorAppearance
        returns
            (CursorAppearance { style, blink }),
    {
        CursorAppearance { style, blink }
    }

    /// The power-on look: a steady block.
    #[verifier::allow_in_spec]
    pub fn initial() -> CursorAppearance
        returns
            (CursorAppearance { style: CursorStyle::Block, blink: false }),
    {
        CursorAppearance { style: CursorStyle::Block, blink: false }
    }
}

impl Default for CursorAppearance {
    fn default() -> (r: CursorAppearance)
        ensures
            r == CursorAppearance::initial(),
    {
        CursorAppearance::initial()
    }
}

/// A prompt the shell marked, and the fate of the command typed at it.
#[derive(Clone, Copy, PartialEq, Eq, Debug, Structural)]
pub struct Prompt {
    /// The row the prompt starts on.
    pub row: AbsRow,
    /// Where the command's output begins, once it has.
    pub output: Option<AbsRow>,
    /// The command's exit status, once it has one.
    pub exit: Option<i32>,
}

/// The cell a grapheme cluster is being built in, and where the cursor was left after it. If
/// the cursor is no longer there, the cluster is over.
#[derive(Clone, Copy, PartialEq, Eq, Debug)]
pub struct ClusterAnchor {
    pub row: usize,
    pub col: usize,
    pub after: (usize, usize),
}

/// Which selection a clipboard write is for.
#[derive(Clone, Copy, PartialEq, Eq, Debug, Structural)]
pub enum ClipboardTarget {
    Clipboard,
    Primary,
}

/// How characters and positions are taken.
#[derive(Clone, Copy, PartialEq, Eq, Debug, Structural)]
pub struct Modes {
    pub autowrap: bool,
    pub origin_mode: bool,
    pub insert_mode: bool,
    /// A user-perceived character occupies one cell, rather than each scalar its own.
    pub grapheme_clustering: bool,
}

impl Modes {
    /// Autowrap on, everything else off.
    #[verifier::allow_in_spec]
    pub fn initial() -> Modes
        returns
            (Modes {
                autowrap: true,
                origin_mode: false,
                insert_mode: false,
                grapheme_clustering: false,
            }),
    {
        Modes {
            autowrap: true,
            origin_mode: false,
            insert_mode: false,
            grapheme_clustering: false,
        }
    }
}

/// What the child wants to be sent.
#[derive(Clone, Copy, PartialEq, Eq, Debug, Structural)]
pub struct InputModes {
    pub app_cursor_keys: bool,
    pub keypad_app: bool,
    pub bracketed_paste: bool,
    pub focus_events: bool,
}

impl InputModes {
    /// Nothing asked for.
    #[verifier::allow_in_spec]
    pub fn initial() -> InputModes
        returns
            (InputModes {
                app_cursor_keys: false,
                keypad_app: false,
                bracketed_paste: false,
                focus_events: false,
            }),
    {
        InputModes {
            app_cursor_keys: false,
            keypad_app: false,
            bracketed_paste: false,
            focus_events: false,
        }
    }
}

/// What is shown and told without being asked.
#[derive(Clone, Copy, PartialEq, Eq, Debug, Structural)]
pub struct OutputModes {
    pub cursor_visible: bool,
    /// The child has asked for the frame to be held until it finishes drawing.
    pub synchronized: bool,
    /// The child wants the size of the screen told in band.
    pub in_band_resize: bool,
}

impl OutputModes {
    /// The cursor shown, nothing else.
    #[verifier::allow_in_spec]
    pub fn initial() -> OutputModes
        returns
            (OutputModes { cursor_visible: true, synchronized: false, in_band_resize: false }),
    {
        OutputModes { cursor_visible: true, synchronized: false, in_band_resize: false }
    }
}

/// The terminal grid: primary and alternate buffers, the active graphic rendition, and the
/// terminal-wide modes. Positions in its interface are 0-based.
pub struct Screen {
    pub primary: Buffer,
    pub alt: Buffer,
    pub on_alt: bool,
    pub pen: Pen,
    pub modes: Modes,
    pub input: InputModes,
    pub output: OutputModes,
    /// The two designated character sets, and which one is in use.
    pub charsets: Charsets,
    pub title: String,
    /// How many lines the view is scrolled up into the primary scrollback. A display
    /// concern: writes always land on the live screen.
    pub view_offset: usize,
    /// The regime the current row ids belong to.
    pub epoch: RowEpoch,
    pub mouse: MouseMode,
    pub cursor_appearance: CursorAppearance,
    /// Bytes to write back to the child in answer to a query.
    pub responses: Vec<u8>,
    /// The URLs of the hyperlinks on screen and in scrollback, shared by both buffers.
    pub links: LinkTable,
    /// The kitty keyboard protocol's flag stack; the top entry is in force.
    pub kitty_stack: Vec<KittyFlags>,
    pub modify_other_keys: ModifyOtherKeys,
    pub theme: Box<Theme>,
    /// The working directory the shell reported, if it has.
    pub cwd: Option<String>,
    /// The prompts the shell has marked, oldest first.
    pub prompts: Vec<Prompt>,
    /// The segmentation machine, carried across scalars, and the cell the cluster it is
    /// building lives in.
    pub cluster: BreakState,
    pub cluster_anchor: Option<ClusterAnchor>,
    /// The last character printed: all there is to repeat.
    pub last_printed: Option<char>,
    /// Text the child has asked to put on a selection.
    pub clipboard_writes: Vec<(ClipboardTarget, Vec<u8>)>,
    pub bell: bool,
    /// The window's size in pixels, carried by the in-band resize report.
    pub pixel_size: (u32, u32),
}

/// A screen as a value.
pub struct ScreenView {
    pub primary: BufferView,
    pub alt: BufferView,
    pub on_alt: bool,
    pub pen: Pen,
    pub modes: Modes,
    pub input: InputModes,
    pub output: OutputModes,
    pub charsets: Charsets,
    pub title: Seq<char>,
    pub view_offset: usize,
    pub epoch: RowEpoch,
    pub mouse: MouseMode,
    pub cursor_appearance: CursorAppearance,
    pub responses: Seq<u8>,
    pub links: Seq<Seq<char>>,
    pub kitty_stack: Seq<KittyFlags>,
    pub modify_other_keys: ModifyOtherKeys,
    pub theme: ThemeView,
    pub cwd: Option<Seq<char>>,
    pub prompts: Seq<Prompt>,
    pub cluster: BreakState,
    pub cluster_anchor: Option<ClusterAnchor>,
    pub last_printed: Option<char>,
    pub clipboard_writes: Seq<(ClipboardTarget, Seq<u8>)>,
    pub bell: bool,
    pub pixel_size: (u32, u32),
}

/// A text that may be missing, as a value.
pub open spec fn maybe_text(s: Option<String>) -> Option<Seq<char>> {
    match s {
        Some(t) => Some(t@),
        None => None,
    }
}

/// Clipboard writes as values.
pub open spec fn writes_view(w: Seq<(ClipboardTarget, Vec<u8>)>) -> Seq<
    (ClipboardTarget, Seq<u8>),
> {
    w.map_values(|e: (ClipboardTarget, Vec<u8>)| (e.0, e.1@))
}

impl View for Screen {
    type V = ScreenView;

    open spec fn view(&self) -> ScreenView {
        ScreenView {
            primary: self.primary@,
            alt: self.alt@,
            on_alt: self.on_alt,
            pen: self.pen,
            modes: self.modes,
            input: self.input,
            output: self.output,
            charsets: self.charsets,
            title: self.title@,
            view_offset: self.view_offset,
            epoch: self.epoch,
            mouse: self.mouse,
            cursor_appearance: self.cursor_appearance,
            responses: self.responses@,
            links: self.links@,
            kitty_stack: self.kitty_stack@,
            modify_other_keys: self.modify_other_keys,
            theme: self.theme@,
            cwd: maybe_text(self.cwd),
            prompts: self.prompts@,
            cluster: self.cluster,
            cluster_anchor: self.cluster_anchor,
            last_printed: self.last_printed,
            clipboard_writes: writes_view(self.clipboard_writes@),
            bell: self.bell,
            pixel_size: self.pixel_size,
        }
    }
}

impl ScreenView {
    /// Two whole buffers of one size, no history behind the alternate one, the view inside
    /// the history there is, a pen that prints narrow cells, every table within its cap, and a
    /// cluster anchor no further right than the cursor was left.
    pub open spec fn wf(self) -> bool {
        &&& self.primary.wf()
        &&& self.alt.wf()
        &&& self.alt.cols == self.primary.cols
        &&& self.alt.rows == self.primary.rows
        &&& self.alt.scrollback_limit == 0
        &&& self.primary.rows + DEFAULT_SCROLLBACK < MAX_SIDE
        &&& self.pen.wf()
        &&& self.view_offset <= self.primary.scrollback.len()
        &&& self.on_alt ==> self.view_offset == 0
        &&& self.kitty_stack.len() <= KITTY_STACK_LIMIT
        &&& self.prompts.len() <= PROMPT_LIMIT
        &&& self.links.len() <= LINK_LIMIT
        &&& distinct(self.links)
        &&& self.cluster_anchor matches Some(a) ==> a.row == a.after.0 && a.col <= a.after.1
    }

    /// The buffer in front.
    pub open spec fn active(self) -> BufferView {
        if self.on_alt {
            self.alt
        } else {
            self.primary
        }
    }

    /// The screen with the buffer in front replaced.
    pub open spec fn with_active(self, b: BufferView) -> ScreenView {
        ScreenView {
            primary: if self.on_alt {
                self.primary
            } else {
                b
            },
            alt: if self.on_alt {
                b
            } else {
                self.alt
            },
            ..self
        }
    }

    /// The power-on screen, with a history of `limit` lines.
    pub open spec fn fresh(cols: usize, rows: usize, limit: usize) -> ScreenView {
        ScreenView {
            primary: BufferView::fresh(cols, rows, limit),
            alt: BufferView::fresh(cols, rows, 0),
            on_alt: false,
            pen: Pen::initial(),
            modes: Modes::initial(),
            input: InputModes::initial(),
            output: OutputModes::initial(),
            charsets: Charsets::initial(),
            title: Seq::empty(),
            view_offset: 0,
            epoch: RowEpoch(0),
            mouse: MouseMode::off(),
            cursor_appearance: CursorAppearance::initial(),
            responses: Seq::empty(),
            links: Seq::empty(),
            kitty_stack: Seq::empty(),
            modify_other_keys: ModifyOtherKeys::Off,
            theme: default_theme(),
            cwd: None,
            prompts: Seq::empty(),
            cluster: BreakState::start(),
            cluster_anchor: None,
            last_printed: None,
            clipboard_writes: Seq::empty(),
            bell: false,
            pixel_size: (0, 0),
        }
    }

    /// The cell an erase or scroll fills with: a space in the pen's background, outside any
    /// hyperlink.
    pub open spec fn blank(self) -> Cell {
        Cell {
            rune: ' ',
            fg: Color::Default,
            bg: self.pen.bg,
            attrs: Attrs(0),
            link: LinkId(0),
        }
    }

    /// The keyboard flags in force.
    pub open spec fn kitty(self) -> KittyFlags {
        if self.kitty_stack.len() > 0 {
            self.kitty_stack.last()
        } else {
            KittyFlags::none()
        }
    }

    /// The screen with `bytes` queued for the child.
    pub open spec fn responding(self, bytes: Seq<u8>) -> ScreenView {
        ScreenView { responses: self.responses + bytes, ..self }
    }
}

/// What an erase fills with is narrow.
pub proof fn lemma_blank_narrow(s: ScreenView)
    ensures
        narrow_cell(s.blank()),
{
    crate::cell::lemma_plain_cell(s.blank());
}

impl Screen {
    /// The screen is whole, and so is the index of its link table.
    pub open spec fn wf(&self) -> bool {
        self@.wf() && self.links.wf()
    }

    /// A power-on screen.
    pub fn new(cols: usize, rows: usize) -> (s: Screen)
        requires
            cols <= MAX_SIDE,
            rows + DEFAULT_SCROLLBACK < MAX_SIDE,
        ensures
            s@ == ScreenView::fresh(cols, rows, DEFAULT_SCROLLBACK),
            s.wf(),
    {
        Screen::with_scrollback(cols, rows, DEFAULT_SCROLLBACK)
    }

    /// A power-on screen whose history holds `limit` lines.
    pub fn with_scrollback(cols: usize, rows: usize, limit: usize) -> (s: Screen)
        requires
            cols <= MAX_SIDE,
            rows + DEFAULT_SCROLLBACK < MAX_SIDE,
            rows + limit < MAX_SIDE,
        ensures
            s@ == ScreenView::fresh(cols, rows, limit),
            s.wf(),
    {
        let pen = Pen::initial();
        proof {
            crate::attrs::lemma_wide_bits(pen.attrs);
        }
        let s = Screen {
            primary: Buffer::new(cols, rows, limit),
            alt: Buffer::new(cols, rows, 0),
            on_alt: false,
            pen,
            modes: Modes::initial(),
            input: InputModes::initial(),
            output: OutputModes::initial(),
            charsets: Charsets::initial(),
            title: String::new(),
            view_offset: 0,
            epoch: RowEpoch(0),
            mouse: MouseMode::off(),
            cursor_appearance: CursorAppearance::initial(),
            responses: Vec::new(),
            links: LinkTable::new(),
            kitty_stack: Vec::new(),
            modify_other_keys: ModifyOtherKeys::Off,
            theme: Box::new(Theme::default()),
            cwd: None,
            prompts: Vec::new(),
            cluster: BreakState::start(),
            cluster_anchor: None,
            last_printed: None,
            clipboard_writes: Vec::new(),
            bell: false,
            pixel_size: (0, 0),
        };
        assert(s@.title =~= Seq::empty());
        assert(s@.clipboard_writes =~= Seq::empty());
        assert(s@ == ScreenView::fresh(cols, rows, limit));
        s
    }

    /// The buffer in front.
    pub fn active(&self) -> (b: &Buffer)
        ensures
            b@ == self@.active(),
    {
        if self.on_alt {
            &self.alt
        } else {
            &self.primary
        }
    }

    pub(crate) fn active_mut(&mut self) -> (b: &mut Buffer)
        ensures
            b@ == old(self)@.active(),
            final(self)@ == old(self)@.with_active(final(b)@),
            final(self).links == old(self).links,
    {
        if self.on_alt {
            &mut self.alt
        } else {
            &mut self.primary
        }
    }

    pub(crate) fn blank_cell(&self) -> (c: Cell)
        ensures
            c == self@.blank(),
            narrow_cell(c),
    {
        proof {
            lemma_blank_narrow(self@);
        }
        Cell {
            rune: ' ',
            fg: Color::Default,
            bg: self.pen.bg,
            attrs: Attrs::empty(),
            link: LinkId::none(),
        }
    }

    /// Queue bytes to be written back to the child.
    pub(crate) fn respond(&mut self, bytes: &[u8])
        ensures
            final(self)@ == old(self)@.responding(bytes@),
            final(self).links == old(self).links,
    {
        self.responses.extend_from_slice(bytes);
        assert(self@.responses =~= old(self)@.responses + bytes@);
    }

    /// Queue text to be written back to the child.
    pub(crate) fn respond_text(&mut self, text: &str)
        ensures
            final(self)@ == old(self)@.responding(vstd::utf8::encode_utf8(text@)),
            final(self).links == old(self).links,
    {
        self.respond(text.as_bytes());
    }

    /// Queue a decimal number.
    pub(crate) fn respond_number(&mut self, n: u32)
        ensures
            final(self)@ == old(self)@.responding(crate::text::decimal(n as nat)),
            final(self).links == old(self).links,
    {
        crate::text::push_decimal(&mut self.responses, n);
    }

    /// Queue one byte.
    pub(crate) fn respond_byte(&mut self, b: u8)
        ensures
            final(self)@ == old(self)@.responding(seq![b]),
            final(self).links == old(self).links,
    {
        self.responses.push(b);
        assert(self@.responses =~= old(self)@.responses + seq![b]);
    }

    // ---- accessors -----------------------------------------------------------------

    /// The size as `(cols, rows)`.
    pub fn dimensions(&self) -> (r: (usize, usize))
        ensures
            r == (self@.active().cols, self@.active().rows),
    {
        let b = self.active();
        (b.cols, b.rows)
    }

    /// Whether the alternate screen is in front.
    pub fn is_alt(&self) -> (r: bool)
        ensures
            r == self@.on_alt,
    {
        self.on_alt
    }

    /// The cursor position as `(row, col)`.
    pub fn cursor(&self) -> (r: (usize, usize))
        ensures
            r == (self@.active().cursor.row, self@.active().cursor.col),
    {
        let c = self.active().cursor;
        (c.row, c.col)
    }

    /// Whether the cursor is shown.
    pub fn cursor_visible(&self) -> (r: bool)
        ensures
            r == self@.output.cursor_visible,
    {
        self.output.cursor_visible
    }

    /// Whether pastes are to be bracketed.
    pub fn bracketed_paste(&self) -> (r: bool)
        ensures
            r == self@.input.bracketed_paste,
    {
        self.input.bracketed_paste
    }

    /// The mouse reporting the child asked for.
    pub fn mouse_mode(&self) -> (r: MouseMode)
        ensures
            r == self@.mouse,
    {
        self.mouse
    }

    /// The cursor shape the child selected.
    pub fn cursor_style(&self) -> (r: CursorStyle)
        ensures
            r == self@.cursor_appearance.style,
    {
        self.cursor_appearance.style
    }

    /// Whether the child asked the cursor to blink.
    pub fn cursor_blinks(&self) -> (r: bool)
        ensures
            r == self@.cursor_appearance.blink,
    {
        self.cursor_appearance.blink
    }

    /// The bytes queued to write back to the child.
    pub fn responses(&self) -> (r: &[u8])
        ensures
            r@ == self@.responses,
    {
        self.responses.as_slice()
    }

    /// Drop the queued bytes after they have been written.
    pub fn clear_responses(&mut self)
        requires
            old(self).wf(),
        ensures
            final(self)@ == (ScreenView { responses: Seq::empty(), ..old(self)@ }),
            final(self).wf(),
    {
        self.responses.clear();
    }

    /// Take the queued bytes, leaving the queue empty.
    pub fn take_responses(&mut self) -> (r: Vec<u8>)
        requires
            old(self).wf(),
        ensures
            r@ == old(self)@.responses,
            final(self)@ == (ScreenView { responses: Seq::empty(), ..old(self)@ }),
            final(self).wf(),
    {
        let mut taken: Vec<u8> = Vec::new();
        std::mem::swap(&mut taken, &mut self.responses);
        taken
    }

    /// Whether the cursor keys are to send their application codes.
    pub fn app_cursor_keys(&self) -> (r: bool)
        ensures
            r == self@.input.app_cursor_keys,
    {
        self.input.app_cursor_keys
    }

    /// The window title.
    pub fn title(&self) -> (r: &str)
        ensures
            r@ == self@.title,
    {
        self.title.as_str()
    }

    /// The cell at visible `(row, col)`; a blank cell if out of range.
    pub fn cell(&self, row: usize, col: usize) -> (r: Cell)
        ensures
            r == self@.active().cell_at(row as int, col as int),
    {
        self.active().cell(row, col)
    }

    /// Combining marks attached to visible `(row, col)`, in arrival order.
    pub fn marks_at(&self, row: usize, col: usize) -> (r: Vec<char>)
        ensures
            r@ == (if row < self@.active().lines.len() {
                crate::row::marks_of(self@.active().lines[row as int].marks, col as int)
            } else {
                Seq::empty()
            }),
    {
        match self.active().line(row) {
            Some(line) => line.marks(col),
            None => Vec::new(),
        }
    }

    /// Whether the keypad is to send its application codes.
    pub fn keypad_app(&self) -> (r: bool)
        ensures
            r == self@.input.keypad_app,
    {
        self.input.keypad_app
    }

    /// Whether the bell has rung since this was last asked, clearing it.
    pub fn take_bell(&mut self) -> (r: bool)
        requires
            old(self).wf(),
        ensures
            r == old(self)@.bell,
            final(self)@ == (ScreenView { bell: false, ..old(self)@ }),
            final(self).wf(),
    {
        let rung = self.bell;
        self.bell = false;
        rung
    }

    /// The window's pixel size, which the in-band resize report carries.
    pub fn set_pixel_size(&mut self, width: u32, height: u32)
        requires
            old(self).wf(),
        ensures
            final(self)@ == (ScreenView { pixel_size: (width, height), ..old(self)@ }),
            final(self).wf(),
    {
        self.pixel_size = (width, height);
    }

    /// Whether the child is mid-frame and would rather nothing were shown than half of it.
    pub fn synchronized(&self) -> (r: bool)
        ensures
            r == self@.output.synchronized,
    {
        self.output.synchronized
    }

    /// The palette in force.
    pub fn theme(&self) -> (r: &Theme)
        ensures
            r@ == self@.theme,
    {
        &self.theme
    }

    /// The prompts the shell has marked, oldest first.
    pub fn prompts(&self) -> (r: &[Prompt])
        ensures
            r@ == self@.prompts,
    {
        self.prompts.as_slice()
    }

    /// The working directory the shell last reported.
    pub fn reported_cwd(&self) -> (r: Option<&str>)
        ensures
            r is Some <==> self@.cwd is Some,
            r matches Some(s) ==> self@.cwd == Some(s@),
    {
        match &self.cwd {
            Some(s) => Some(s.as_str()),
            None => None,
        }
    }

    /// Take the clipboard writes the child has asked for, leaving the queue empty.
    pub fn take_clipboard_writes(&mut self) -> (r: Vec<(ClipboardTarget, Vec<u8>)>)
        requires
            old(self).wf(),
        ensures
            writes_view(r@) == old(self)@.clipboard_writes,
            final(self)@ == (ScreenView { clipboard_writes: Seq::empty(), ..old(self)@ }),
            final(self).wf(),
    {
        let mut taken: Vec<(ClipboardTarget, Vec<u8>)> = Vec::new();
        std::mem::swap(&mut taken, &mut self.clipboard_writes);
        assert(self@.clipboard_writes =~= Seq::empty());
        taken
    }

    /// The kitty keyboard flags in force.
    pub fn kitty_flags(&self) -> (r: KittyFlags)
        ensures
            r == self@.kitty(),
    {
        if self.kitty_stack.len() > 0 {
            self.kitty_stack[self.kitty_stack.len() - 1]
        } else {
            KittyFlags::none()
        }
    }

    /// The `modifyOtherKeys` level the child asked for.
    pub fn modify_other_keys(&self) -> (r: ModifyOtherKeys)
        ensures
            r == self@.modify_other_keys,
    {
        self.modify_other_keys
    }

    /// The regime row ids currently belong to. A holder of ids keeps the epoch it got them in
    /// and drops them when this changes.
    pub fn row_epoch(&self) -> (r: RowEpoch)
        ensures
            r == self@.epoch,
    {
        self.epoch
    }
}

} // verus!
