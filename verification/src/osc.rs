//! Operating-system commands: hyperlinks, colours, the working directory, shell marks and
//! the clipboard.
use vstd::prelude::*;
use crate::cell::{LinkId, Pen};
use crate::codec::{
    base64_decode, base64_decoded, byte_field, parse_i32, parse_u8, percent_decode,
    percent_decoded, signed_field,
};
use crate::color::{
    default_shade, default_theme, parse_x11_color, write_x11_color, x11_text, x11_value, Rgb, Theme,
    ThemeView,
};
use crate::fields::{
    fields, fields_view, find_byte, first_at, head, lemma_first_at, split_fields, split_head, tail,
};
use crate::ids::AbsRow;
use crate::link::{can_open, openable};
use crate::links::{interned, link_id};
use crate::screen::{ClipboardTarget, Prompt, Screen, ScreenView, PROMPT_LIMIT};
use crate::text::{decimal, lossy_text, text_lossy, text_strict, utf8};

verus! {

/// Which of the three named colours a request is about.
#[derive(Clone, Copy, PartialEq, Eq, Debug, Structural)]
pub enum NamedColor {
    Foreground,
    Background,
    Cursor,
}

impl NamedColor {
    /// The command number that names the colour.
    pub open spec fn number(self) -> nat {
        match self {
            NamedColor::Foreground => 10,
            NamedColor::Background => 11,
            NamedColor::Cursor => 12,
        }
    }

    /// The colour the next field of the same request is about.
    pub open spec fn after(self) -> Option<NamedColor> {
        match self {
            NamedColor::Foreground => Some(NamedColor::Background),
            NamedColor::Background => Some(NamedColor::Cursor),
            NamedColor::Cursor => None,
        }
    }

    fn code(self) -> (r: u32)
        ensures
            r == self.number(),
    {
        match self {
            NamedColor::Foreground => 10,
            NamedColor::Background => 11,
            NamedColor::Cursor => 12,
        }
    }

    fn next(self) -> (r: Option<NamedColor>)
        ensures
            r == self.after(),
    {
        match self {
            NamedColor::Foreground => Some(NamedColor::Background),
            NamedColor::Background => Some(NamedColor::Cursor),
            NamedColor::Cursor => None,
        }
    }
}

impl ThemeView {
    /// One of the named colours.
    pub open spec fn named(self, which: NamedColor) -> Rgb {
        match which {
            NamedColor::Foreground => self.fg,
            NamedColor::Background => self.bg,
            NamedColor::Cursor => self.cursor,
        }
    }

    /// The palette with one of the named colours replaced.
    pub open spec fn with_named(self, which: NamedColor, color: Rgb) -> ThemeView {
        match which {
            NamedColor::Foreground => ThemeView { fg: color, ..self },
            NamedColor::Background => ThemeView { bg: color, ..self },
            NamedColor::Cursor => ThemeView { cursor: color, ..self },
        }
    }

    /// The palette with one of its entries replaced.
    pub open spec fn with_entry(self, index: u8, color: Rgb) -> ThemeView {
        ThemeView { palette: self.palette.update(index as int, color), ..self }
    }

    /// The palette with the entries these fields name back at their defaults; a field that is
    /// no index is skipped.
    pub open spec fn entries_reset(self, list: Seq<Seq<u8>>) -> ThemeView
        decreases list.len(),
    {
        if list.len() == 0 {
            self
        } else {
            let t = match byte_field(list[0]) {
                Some(i) => self.with_entry(i, default_shade(i as int)),
                None => self,
            };
            t.entries_reset(list.skip(1))
        }
    }
}

impl Theme {
    fn named(&self, which: NamedColor) -> (r: Rgb)
        ensures
            r == self@.named(which),
    {
        match which {
            NamedColor::Foreground => self.fg,
            NamedColor::Background => self.bg,
            NamedColor::Cursor => self.cursor,
        }
    }

    fn set_named(&mut self, which: NamedColor, color: Rgb)
        ensures
            final(self)@ == old(self)@.with_named(which, color),
    {
        match which {
            NamedColor::Foreground => self.fg = color,
            NamedColor::Background => self.bg = color,
            NamedColor::Cursor => self.cursor = color,
        }
    }
}

/// The end of a reply, in the terminator the request used.
pub open spec fn reply_close(bel: bool) -> Seq<u8> {
    if bel {
        seq![7u8]
    } else {
        utf8("\x1b\\"@)
    }
}

/// The path in a working-directory report: what follows the host of a file URL, or a bare
/// path.
pub open spec fn cwd_path(pt: Seq<u8>) -> Option<Seq<u8>> {
    let scheme = utf8("file://"@);
    if pt.len() >= scheme.len() && pt.take(scheme.len() as int) == scheme {
        let rest = pt.skip(scheme.len() as int);
        if first_at(rest, 47) < rest.len() {
            Some(rest.skip(first_at(rest, 47)))
        } else {
            None
        }
    } else if pt.len() > 0 && pt[0] == 47 {
        Some(pt)
    } else {
        None
    }
}

/// Whether `a` is above `row`, or below it.
pub open spec fn on_side(a: AbsRow, row: AbsRow, backward: bool) -> bool {
    if backward {
        a.0 < row.0
    } else {
        a.0 > row.0
    }
}

/// The nearest prompt above a row, or below it.
pub open spec fn prompt_near(prompts: Seq<Prompt>, row: AbsRow, backward: bool) -> Option<AbsRow>
    decreases prompts.len(),
{
    if prompts.len() == 0 {
        None
    } else {
        let best = prompt_near(prompts.drop_last(), row, backward);
        let last = prompts.last().row;
        if on_side(last, row, backward) && (best matches Some(b) ==> on_side(b, last, backward)) {
            Some(last)
        } else {
            best
        }
    }
}

/// No prompt lies between a row and the nearest one to it, and there is none where no prompt
/// is on that side of it.
pub proof fn lemma_prompt_near(prompts: Seq<Prompt>, row: AbsRow, backward: bool)
    ensures
        prompt_near(prompts, row, backward) matches Some(r) ==> on_side(r, row, backward) && (
        exists|i: int| 0 <= i < prompts.len() && (#[trigger] prompts[i]).row == r) && (forall|i: int|
            0 <= i < prompts.len() && on_side((#[trigger] prompts[i]).row, row, backward)
                ==> prompts[i].row == r || on_side(prompts[i].row, r, backward)),
        prompt_near(prompts, row, backward) is None ==> forall|i: int|
            0 <= i < prompts.len() ==> !on_side((#[trigger] prompts[i]).row, row, backward),
    decreases prompts.len(),
{
    if prompts.len() > 0 {
        let init = prompts.drop_last();
        lemma_prompt_near(init, row, backward);
        let n = prompts.len() - 1;
        assert forall|i: int| 0 <= i < n implies #[trigger] prompts[i] == init[i] by {}
        assert(prompts[n] == prompts.last());
        if let Some(b) = prompt_near(init, row, backward) {
            let i = choose|i: int| 0 <= i < init.len() && (#[trigger] init[i]).row == b;
            assert(prompts[i].row == b);
        }
    }
}

/// The prompts with a new one behind them, the oldest dropped where there is no room.
pub open spec fn prompt_added(prompts: Seq<Prompt>, row: AbsRow) -> Seq<Prompt> {
    if prompts.len() > 0 && prompts.last().row == row {
        prompts
    } else {
        (if prompts.len() >= PROMPT_LIMIT {
            prompts.skip(1)
        } else {
            prompts
        }).push(Prompt { row, output: None, exit: None })
    }
}

/// The prompts with the output of the last one's command starting at `row`.
pub open spec fn output_marked(prompts: Seq<Prompt>, row: AbsRow) -> Seq<Prompt> {
    if prompts.len() > 0 && prompts.last().output is None {
        prompts.update(prompts.len() - 1, Prompt { output: Some(row), ..prompts.last() })
    } else {
        prompts
    }
}

/// The prompts with the last one's command ended.
pub open spec fn exit_marked(prompts: Seq<Prompt>, exit: Option<int>) -> Seq<Prompt> {
    if prompts.len() > 0 && exit is Some {
        prompts.update(prompts.len() - 1, Prompt { exit: Some(exit->0 as i32), ..prompts.last() })
    } else {
        prompts
    }
}

impl ScreenView {
    /// The pen inside the link to `url`, which takes an id first. When every id is taken the
    /// dead ones are collected, and if that frees none the text is simply not a link.
    pub open spec fn linked(self, url: Seq<char>) -> ScreenView {
        let s = if link_id(self.links, url) is Some {
            self
        } else {
            self.links_collected()
        };
        let id = match link_id(s.links, url) {
            Some(id) => id,
            None => LinkId(0),
        };
        ScreenView { links: interned(s.links, url), pen: Pen { link: id, ..s.pen }, ..s }
    }

    /// A hyperlink opened on the pen, or closed: an empty, malformed or unopenable target
    /// closes whatever was open.
    pub open spec fn hyperlink_set(self, pt: Seq<u8>) -> ScreenView {
        let uri = tail(pt, 59);
        if vstd::utf8::valid_utf8(uri) && openable(vstd::utf8::decode_utf8(uri)) {
            self.linked(vstd::utf8::decode_utf8(uri))
        } else {
            ScreenView { pen: Pen { link: LinkId(0), ..self.pen }, ..self }
        }
    }

    /// A named colour queried or set; a field that is neither changes nothing.
    pub open spec fn color_asked(self, which: NamedColor, field: Seq<u8>, bel: bool) -> ScreenView {
        if field == utf8("?"@) {
            self.responding(
                utf8("\x1b]"@) + decimal(which.number()) + utf8(";"@) + x11_text(
                    self.theme.named(which),
                ) + reply_close(bel),
            )
        } else {
            match x11_value(field) {
                Some(color) => ScreenView { theme: self.theme.with_named(which, color), ..self },
                None => self,
            }
        }
    }

    /// A list of colour requests: each field is about the next named colour.
    pub open spec fn colors_asked(
        self,
        which: Option<NamedColor>,
        list: Seq<Seq<u8>>,
        bel: bool,
    ) -> ScreenView
        decreases list.len(),
    {
        if list.len() == 0 || which is None {
            self
        } else {
            self.color_asked(which->0, list[0], bel).colors_asked(
                which->0.after(),
                list.skip(1),
                bel,
            )
        }
    }

    /// A palette entry queried or set; an index or a colour that is none changes nothing.
    pub open spec fn entry_asked(self, index: Seq<u8>, field: Seq<u8>, bel: bool) -> ScreenView {
        match byte_field(index) {
            None => self,
            Some(i) => if field == utf8("?"@) {
                self.responding(
                    utf8("\x1b]4;"@) + decimal(i as nat) + utf8(";"@) + x11_text(
                        self.theme.palette[i as int],
                    ) + reply_close(bel),
                )
            } else {
                match x11_value(field) {
                    Some(color) => ScreenView { theme: self.theme.with_entry(i, color), ..self },
                    None => self,
                }
            },
        }
    }

    /// A list of palette requests: index and colour in turn.
    pub open spec fn palette_asked(self, list: Seq<Seq<u8>>, bel: bool) -> ScreenView
        decreases list.len(),
    {
        if list.len() < 2 {
            self
        } else {
            self.entry_asked(list[0], list[1], bel).palette_asked(list.skip(2), bel)
        }
    }

    /// The palette entries a payload names back at their defaults, or all of them where it
    /// names none. The named colours have resets of their own.
    pub open spec fn palette_reset(self, pt: Seq<u8>) -> ScreenView {
        ScreenView {
            theme: if pt.len() == 0 {
                ThemeView { palette: default_theme().palette, ..self.theme }
            } else {
                self.theme.entries_reset(fields(pt, 59))
            },
            ..self
        }
    }

    /// The working directory reported.
    pub open spec fn cwd_reported(self, pt: Seq<u8>) -> ScreenView {
        match cwd_path(pt) {
            Some(path) => ScreenView { cwd: Some(lossy_text(percent_decoded(path))), ..self },
            None => self,
        }
    }

    /// The id of the line the cursor is on.
    pub open spec fn cursor_row_id(self) -> AbsRow {
        let b = self.active();
        b.id_at(b.scrollback.len() + b.cursor.row)
    }

    /// A shell mark: a prompt starts, a command's output starts, or the command ended.
    pub open spec fn shell_marked(self, pt: Seq<u8>) -> ScreenView {
        let list = fields(pt, 59);
        ScreenView {
            prompts: if list[0] == utf8("A"@) {
                prompt_added(self.prompts, self.cursor_row_id())
            } else if list[0] == utf8("C"@) {
                output_marked(self.prompts, self.cursor_row_id())
            } else if list[0] == utf8("D"@) {
                exit_marked(
                    self.prompts,
                    if list.len() > 1 {
                        signed_field(list[1])
                    } else {
                        None
                    },
                )
            } else {
                self.prompts
            },
            ..self
        }
    }

    /// Whether there is a prompt to scroll to, above the view or below its top.
    pub open spec fn prompt_target(self, backward: bool) -> Option<int> {
        match prompt_near(self.prompts, self.row_id(0), backward) {
            Some(row) => self.active().index_of(row),
            None => None,
        }
    }

    /// The view with the target prompt at its top, or as high as the history allows.
    pub open spec fn viewed_at_prompt(self, backward: bool) -> ScreenView {
        match self.prompt_target(backward) {
            Some(index) => {
                let above = self.active().scrollback.len() - index;
                ScreenView {
                    view_offset: if above < 0 {
                        0
                    } else {
                        above as usize
                    },
                    ..self
                }
            },
            None => self,
        }
    }

    /// Text put on the clipboard, the primary selection, or both. A request to read either
    /// is never answered.
    pub open spec fn clipboard_set(self, pt: Seq<u8>) -> ScreenView {
        let selection = head(pt, 59);
        let payload = tail(pt, 59);
        let clipboard = selection.len() == 0 || selection.contains(99);
        let primary = selection.contains(112) || selection.contains(115);
        if payload == utf8("?"@) {
            self
        } else {
            match base64_decoded(payload) {
                None => self,
                Some(text) => ScreenView {
                    clipboard_writes: self.clipboard_writes + (if clipboard {
                        seq![(ClipboardTarget::Clipboard, text)]
                    } else {
                        Seq::empty()
                    }) + (if primary {
                        seq![(ClipboardTarget::Primary, text)]
                    } else {
                        Seq::empty()
                    }),
                    ..self
                },
            }
        }
    }
}

/// Whether a field is exactly this text.
pub(crate) fn is_text(field: &[u8], text: &str) -> (r: bool)
    ensures
        r == (field@ == utf8(text@)),
{
    let t = text.as_bytes();
    if field.len() != t.len() {
        return false;
    }
    let mut i: usize = 0;
    while i < t.len()
        invariant
            i <= t@.len(),
            t@ == utf8(text@),
            field@.len() == t@.len(),
            forall|j: int| 0 <= j < i ==> #[trigger] field@[j] == t@[j],
        decreases t.len() - i,
    {
        if field[i] != t[i] {
            return false;
        }
        i = i + 1;
    }
    assert(field@ =~= t@);
    true
}

fn has_byte(s: &[u8], b: u8) -> (r: bool)
    ensures
        r == s@.contains(b),
{
    let p = find_byte(s, b);
    proof {
        lemma_first_at(s@, b);
        if p < s@.len() {
            assert(s@[p as int] == b);
        } else if s@.contains(b) {
            let i = s@.index_of(b);
            assert(s@[i] != b);
        }
    }
    p < s.len()
}

/// Remember a prompt. A shell that redraws its prompt in place marks the same row again.
fn push_prompt(prompts: &mut Vec<Prompt>, row: AbsRow)
    ensures
        final(prompts)@ == prompt_added(old(prompts)@, row),
{
    if prompts.len() > 0 && prompts[prompts.len() - 1].row == row {
        return;
    }
    if prompts.len() >= PROMPT_LIMIT {
        prompts.remove(0);
        assert(prompts@ =~= old(prompts)@.skip(1));
    }
    prompts.push(Prompt { row, output: None, exit: None });
}

/// The path in a working-directory report.
fn cwd_path_of(pt: &[u8]) -> (r: Option<&[u8]>)
    ensures
        r is Some <==> cwd_path(pt@) is Some,
        r matches Some(p) ==> cwd_path(pt@) == Some(p@),
{
    let scheme = "file://".as_bytes();
    let n: usize = scheme.len();
    if pt.len() >= n && is_text(vstd::slice::slice_subrange(pt, 0, n), "file://") {
        assert(pt@.subrange(0, n as int) =~= pt@.take(n as int));
        let rest = vstd::slice::slice_subrange(pt, n, pt.len());
        assert(rest@ =~= pt@.skip(n as int));
        let i = find_byte(rest, 47);
        proof {
            lemma_first_at(rest@, 47);
        }
        if i < rest.len() {
            let path = vstd::slice::slice_subrange(rest, i, rest.len());
            assert(path@ =~= rest@.skip(i as int));
            Some(path)
        } else {
            None
        }
    } else {
        assert(pt@.len() >= n ==> pt@.subrange(0, n as int) =~= pt@.take(n as int));
        if pt.len() > 0 && pt[0] == 47 {
            Some(pt)
        } else {
            None
        }
    }
}

impl Screen {
    // ---- hyperlinks --------------------------------------------------------------------

    /// Put the pen inside the link to `url`, if there is an id for it.
    fn try_link(&mut self, url: &str) -> (ok: bool)
        requires
            old(self).wf(),
        ensures
            ok == (link_id(old(self)@.links, url@) is Some),
            !ok ==> final(self)@ == old(self)@,
            ok ==> final(self)@ == (ScreenView {
                links: interned(old(self)@.links, url@),
                pen: Pen { link: link_id(old(self)@.links, url@)->0, ..old(self)@.pen },
                ..old(self)@
            }),
            final(self).wf(),
    {
        proof {
            crate::links::lemma_interned_wf(self@.links, url@);
        }
        let ghost start = self@;
        let found = self.links.intern(url);
        assert(self@ == (ScreenView { links: interned(start.links, url@), ..start }));
        match found {
            Some(id) => {
                self.set_pen_link(id);
                true
            },
            None => false,
        }
    }

    fn set_pen_link(&mut self, id: LinkId)
        requires
            old(self).wf(),
        ensures
            final(self)@ == (ScreenView {
                pen: Pen { link: id, ..old(self)@.pen },
                ..old(self)@
            }),
            final(self).wf(),
    {
        self.pen.link = id;
    }

    /// Put the pen inside the link to `url`, collecting dead ids first if the table has
    /// filled up.
    fn link_pen(&mut self, url: &str)
        requires
            old(self).wf(),
        ensures
            final(self)@ == old(self)@.linked(url@),
            final(self).wf(),
    {
        if self.try_link(url) {
            return;
        }
        self.collect_links();
        proof {
            crate::links::lemma_interned_wf(self@.links, url@);
        }
        if !self.try_link(url) {
            self.pen.link = LinkId::none();
        }
    }

    /// OSC 8: open or close a hyperlink on the pen. The payload is `params ; URI`; the
    /// parameters are ignored, because interning by URL already gives identical URLs one
    /// identity. The URI is vetted here, when the anchor opens.
    pub(crate) fn set_hyperlink(&mut self, pt: &[u8])
        requires
            old(self).wf(),
        ensures
            final(self)@ == old(self)@.hyperlink_set(pt@),
            final(self).wf(),
    {
        let (_, uri) = split_head(pt, 59);
        match text_strict(uri) {
            Some(url) => {
                if can_open(url.as_str()) {
                    self.link_pen(url.as_str());
                } else {
                    self.pen.link = LinkId::none();
                }
            },
            None => {
                self.pen.link = LinkId::none();
            },
        }
    }

    // ---- colours -----------------------------------------------------------------------

    /// Close a reply with the same terminator the request used.
    fn end_osc(&mut self, bel: bool)
        ensures
            final(self)@ == old(self)@.responding(reply_close(bel)),
            final(self).links == old(self).links,
    {
        if bel {
            self.respond_byte(7);
        } else {
            self.respond_text("\x1b\\");
        }
    }

    /// Queue a colour.
    fn respond_color(&mut self, color: Rgb)
        ensures
            final(self)@ == old(self)@.responding(x11_text(color)),
            final(self).links == old(self).links,
    {
        write_x11_color(color, &mut self.responses);
    }

    fn report_color(&mut self, open: &str, code: u32, color: Rgb, bel: bool)
        requires
            old(self).wf(),
        ensures
            final(self)@ == old(self)@.responding(
                utf8(open@) + decimal(code as nat) + utf8(";"@) + x11_text(color) + reply_close(
                    bel,
                ),
            ),
            final(self).wf(),
    {
        self.respond_text(open);
        self.respond_number(code);
        self.respond_text(";");
        self.respond_color(color);
        self.end_osc(bel);
        assert(self@.responses =~= old(self)@.responses + (utf8(open@) + decimal(code as nat)
            + utf8(";"@) + x11_text(color) + reply_close(bel)));
    }

    fn named_color(&mut self, which: NamedColor, field: &[u8], bel: bool)
        requires
            old(self).wf(),
        ensures
            final(self)@ == old(self)@.color_asked(which, field@, bel),
            final(self).wf(),
    {
        if is_text(field, "?") {
            let color = self.theme.named(which);
            self.report_color("\x1b]", which.code(), color, bel);
        } else if let Some(color) = parse_x11_color(field) {
            self.theme.set_named(which, color);
        }
    }

    /// OSC 10, 11 and 12: set or query the default foreground, background, or cursor colour.
    /// The payload is a list: each field steps to the next colour.
    pub(crate) fn osc_named_color(&mut self, first: NamedColor, pt: &[u8], bel: bool)
        requires
            old(self).wf(),
        ensures
            final(self)@ == old(self)@.colors_asked(Some(first), fields(pt@, 59), bel),
            final(self).wf(),
    {
        let list = split_fields(pt, 59);
        let ghost all = fields(pt@, 59);
        let mut which = Some(first);
        let mut i: usize = 0;
        assert(all.skip(0) =~= all);
        while i < list.len()
            invariant
                i <= list@.len(),
                fields_view(list@) == all,
                all == fields(pt@, 59),
                self.wf(),
                self@.colors_asked(which, all.skip(i as int), bel) == old(
                    self,
                )@.colors_asked(Some(first), all, bel),
            decreases list.len() - i,
        {
            let ghost rest = all.skip(i as int);
            assert(rest.len() > 0 && rest[0] == list@[i as int]@);
            assert(rest.skip(1) =~= all.skip(i + 1));
            match which {
                Some(target) => {
                    self.named_color(target, list[i].as_slice(), bel);
                    which = target.next();
                },
                None => {
                    return;
                },
            }
            i = i + 1;
        }
        assert(all.skip(i as int).len() == 0);
    }

    fn palette_entry(&mut self, index: &[u8], field: &[u8], bel: bool)
        requires
            old(self).wf(),
        ensures
            final(self)@ == old(self)@.entry_asked(index@, field@, bel),
            final(self).wf(),
    {
        if let Some(i) = parse_u8(index) {
            if is_text(field, "?") {
                let color = self.theme.indexed(i);
                self.report_color("\x1b]4;", i as u32, color, bel);
            } else if let Some(color) = parse_x11_color(field) {
                self.theme.set_indexed(i, color);
            }
        }
    }

    /// OSC 4: set or query palette entries, several pairs at a time.
    pub(crate) fn osc_palette(&mut self, pt: &[u8], bel: bool)
        requires
            old(self).wf(),
        ensures
            final(self)@ == old(self)@.palette_asked(fields(pt@, 59), bel),
            final(self).wf(),
    {
        let ghost start = self@;
        let list = split_fields(pt, 59);
        let ghost all = fields(pt@, 59);
        let mut i: usize = 0;
        assert(all.skip(0) =~= all);
        while list.len() - i >= 2
            invariant
                i <= list@.len(),
                fields_view(list@) == all,
                self.wf(),
                self@.palette_asked(all.skip(i as int), bel) == start.palette_asked(all, bel),
            decreases list.len() - i,
        {
            let ghost rest = all.skip(i as int);
            assert(rest.len() >= 2 && rest[0] == list@[i as int]@ && rest[1] == list@[i + 1]@);
            assert(rest.skip(2) =~= all.skip(i + 2));
            self.palette_entry(list[i].as_slice(), list[i + 1].as_slice(), bel);
            i = i + 2;
        }
        assert(all.skip(i as int).len() < 2);
    }

    /// OSC 104: reset the named palette entries, or the whole palette when the payload is
    /// empty. The three named colours survive.
    pub(crate) fn osc_reset_palette(&mut self, pt: &[u8])
        requires
            old(self).wf(),
        ensures
            final(self)@ == old(self)@.palette_reset(pt@),
            final(self).wf(),
    {
        if pt.len() == 0 {
            self.theme.reset_palette();
            return;
        }
        let ghost start = self@;
        let list = split_fields(pt, 59);
        let ghost all = fields(pt@, 59);
        let mut i: usize = 0;
        assert(all.skip(0) =~= all);
        while i < list.len()
            invariant
                i <= list@.len(),
                fields_view(list@) == all,
                self.wf(),
                self@ == (ScreenView { theme: self.theme@, ..start }),
                self.theme@.entries_reset(all.skip(i as int)) == start.theme.entries_reset(all),
            decreases list.len() - i,
        {
            let ghost rest = all.skip(i as int);
            assert(rest.len() > 0 && rest[0] == list@[i as int]@);
            assert(rest.skip(1) =~= all.skip(i + 1));
            if let Some(index) = parse_u8(list[i].as_slice()) {
                self.theme.reset_indexed(index);
            }
            i = i + 1;
        }
        assert(all.skip(i as int).len() == 0);
    }

    /// One of the named colours back at its default.
    pub(crate) fn reset_named_color(&mut self, which: NamedColor)
        requires
            old(self).wf(),
        ensures
            final(self)@ == (ScreenView {
                theme: old(self)@.theme.with_named(which, default_theme().named(which)),
                ..old(self)@
            }),
            final(self).wf(),
    {
        let color = Theme::default().named(which);
        self.theme.set_named(which, color);
    }

    // ---- the shell ---------------------------------------------------------------------

    /// OSC 7: the shell reports its working directory, percent-encoded.
    pub(crate) fn osc_cwd(&mut self, pt: &[u8])
        requires
            old(self).wf(),
        ensures
            final(self)@ == old(self)@.cwd_reported(pt@),
            final(self).wf(),
    {
        if let Some(path) = cwd_path_of(pt) {
            self.cwd = Some(percent_decode(path));
        }
    }

    /// The id of the line the cursor is on.
    fn cursor_row(&self) -> (r: AbsRow)
        requires
            self.wf(),
        ensures
            r == self@.cursor_row_id(),
    {
        let b = self.active();
        b.abs_of(b.scrollback.len() + b.cursor.row)
    }

    fn add_prompt(&mut self, row: AbsRow)
        requires
            old(self).wf(),
        ensures
            final(self)@ == (ScreenView {
                prompts: prompt_added(old(self)@.prompts, row),
                ..old(self)@
            }),
            final(self).wf(),
    {
        push_prompt(&mut self.prompts, row);
    }

    fn mark_output(&mut self, row: AbsRow)
        requires
            old(self).wf(),
        ensures
            final(self)@ == (ScreenView {
                prompts: output_marked(old(self)@.prompts, row),
                ..old(self)@
            }),
            final(self).wf(),
    {
        let n: usize = self.prompts.len();
        if n > 0 {
            let last = self.prompts[n - 1];
            if last.output.is_none() {
                self.prompts.set(n - 1, Prompt { output: Some(row), ..last });
            }
        }
    }

    fn mark_exit(&mut self, exit: Option<i32>)
        requires
            old(self).wf(),
        ensures
            final(self)@ == (ScreenView {
                prompts: exit_marked(
                    old(self)@.prompts,
                    match exit {
                        Some(code) => Some(code as int),
                        None => None,
                    },
                ),
                ..old(self)@
            }),
            final(self).wf(),
    {
        let n: usize = self.prompts.len();
        if n > 0 && exit.is_some() {
            let last = self.prompts[n - 1];
            self.prompts.set(n - 1, Prompt { exit, ..last });
        }
    }

    /// OSC 133: the shell tells where a prompt is, where the command's output starts, and
    /// how it ended.
    pub(crate) fn osc_shell_mark(&mut self, pt: &[u8])
        requires
            old(self).wf(),
        ensures
            final(self)@ == old(self)@.shell_marked(pt@),
            final(self).wf(),
    {
        let list = split_fields(pt, 59);
        proof {
            crate::fields::lemma_fields_some(pt@, 59);
            assert(fields(pt@, 59).len() == list@.len());
            assert(fields(pt@, 59)[0] == list@[0]@);
        }
        let kind = list[0].as_slice();
        if is_text(kind, "A") {
            let row = self.cursor_row();
            self.add_prompt(row);
        } else if is_text(kind, "C") {
            let row = self.cursor_row();
            self.mark_output(row);
        } else if is_text(kind, "D") {
            if list.len() > 1 {
                assert(fields(pt@, 59)[1] == list@[1]@);
            }
            let exit: Option<i32> = if list.len() > 1 {
                parse_i32(list[1].as_slice())
            } else {
                None
            };
            self.mark_exit(exit);
        }
    }

    /// The nearest prompt above the top of the view, or below it.
    fn nearest_prompt(&self, row: AbsRow, backward: bool) -> (r: Option<AbsRow>)
        ensures
            r == prompt_near(self@.prompts, row, backward),
    {
        let ghost all = self.prompts@;
        let mut best: Option<AbsRow> = None;
        let mut i: usize = 0;
        while i < self.prompts.len()
            invariant
                i <= all.len(),
                all == self.prompts@,
                best == prompt_near(all.take(i as int), row, backward),
            decreases all.len() - i,
        {
            let p = self.prompts[i].row;
            assert(all.take(i + 1).drop_last() =~= all.take(i as int));
            let nearer: bool = match best {
                Some(b) => if backward {
                    b.0 < p.0
                } else {
                    b.0 > p.0
                },
                None => true,
            };
            let beyond: bool = if backward {
                p.0 < row.0
            } else {
                p.0 > row.0
            };
            if beyond && nearer {
                best = Some(p);
            }
            i = i + 1;
        }
        assert(all.take(i as int) =~= all);
        best
    }

    /// Scroll so the prompt nearest above (or below) the top of the view comes into sight,
    /// and answer whether one was found.
    pub fn scroll_to_prompt(&mut self, backward: bool) -> (found: bool)
        requires
            old(self).wf(),
        ensures
            found == (old(self)@.prompt_target(backward) is Some),
            final(self)@ == old(self)@.viewed_at_prompt(backward),
            final(self).wf(),
    {
        let top = self.abs_row(0);
        match self.nearest_prompt(top, backward) {
            Some(row) => {
                let b = self.active();
                match b.stream_index(row) {
                    Some(index) => {
                        // The offset is measured back from the live top of the screen.
                        let above: usize = b.scrollback.len().saturating_sub(index);
                        self.view_offset = above;
                        true
                    },
                    None => false,
                }
            },
            None => false,
        }
    }

    // ---- the clipboard -----------------------------------------------------------------

    fn queue_write(&mut self, target: ClipboardTarget, text: &Vec<u8>)
        requires
            old(self).wf(),
        ensures
            final(self)@ == (ScreenView {
                clipboard_writes: old(self)@.clipboard_writes.push((target, text@)),
                ..old(self)@
            }),
            final(self).wf(),
    {
        let copy = crate::fields::copy_range(text.as_slice(), 0, text.len());
        assert(copy@ =~= text@);
        self.clipboard_writes.push((target, copy));
        assert(self@.clipboard_writes =~= old(self)@.clipboard_writes.push((target, text@)));
    }

    /// OSC 52: the child puts text on the clipboard. Reads are refused: a terminal cannot
    /// tell which program printed a byte, and a reply would hand the clipboard to anything
    /// that can get a line onto the screen.
    pub(crate) fn osc_clipboard(&mut self, pt: &[u8])
        requires
            old(self).wf(),
        ensures
            final(self)@ == old(self)@.clipboard_set(pt@),
            final(self).wf(),
    {
        let (selection, payload) = split_head(pt, 59);
        if is_text(payload, "?") {
            return;
        }
        let text = match base64_decode(payload) {
            Some(t) => t,
            None => {
                return;
            },
        };
        // An empty field means the clipboard, and several may be named at once.
        if selection.len() == 0 || has_byte(selection, 99) {
            self.queue_write(ClipboardTarget::Clipboard, &text);
        }
        if has_byte(selection, 112) || has_byte(selection, 115) {
            self.queue_write(ClipboardTarget::Primary, &text);
        }
        assert(self@.clipboard_writes =~= old(self)@.clipboard_set(pt@).clipboard_writes);
    }

    /// OSC 0 and 2: set the window title.
    pub fn set_title(&mut self, title: String)
        requires
            old(self).wf(),
        ensures
            final(self)@ == (ScreenView { title: title@, ..old(self)@ }),
            final(self).wf(),
    {
        self.title = title;
    }

    /// Set the window title from raw bytes.
    pub(crate) fn set_title_bytes(&mut self, pt: &[u8])
        requires
            old(self).wf(),
        ensures
            final(self)@ == (ScreenView { title: lossy_text(pt@), ..old(self)@ }),
            final(self).wf(),
    {
        self.set_title(text_lossy(pt));
    }
}

} // verus!
