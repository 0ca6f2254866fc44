//! One cell of the grid, the pen that prints it, and the cursor that says where.
use vstd::prelude::*;
use crate::attrs::{lemma_wide_bits, Attrs};
use crate::color::Color;

verus! {

/// Which hyperlink a cell belongs to: an id in the screen's link table, or none for the
/// overwhelming majority of cells.
#[derive(Clone, Copy, PartialEq, Eq, Hash, Debug, Structural)]
pub struct LinkId(pub u16);

impl LinkId {
    /// The cell is not inside a hyperlink.
    #[verifier::allow_in_spec]
    pub fn none() -> LinkId
        returns
            LinkId(0),
    {
        LinkId(0)
    }

    /// Whether this cell is inside a hyperlink at all.
    pub fn is_set(self) -> (r: bool)
        ensures
            r == (self != LinkId(0)),
    {
        self != LinkId::none()
    }
}

impl Default for LinkId {
    fn default() -> (r: LinkId)
        ensures
            r == LinkId(0),
    {
        LinkId(0)
    }
}

/// One grid cell: the base rune of its grapheme cluster, its colours, its rendition
/// attributes, and the hyperlink it belongs to.
#[derive(Clone, Copy, PartialEq, Eq, Hash, Debug, Structural)]
pub struct Cell {
    /// The base rune. Combining marks live in the row's side list, keyed by column.
    pub rune: char,
    pub fg: Color,
    pub bg: Color,
    pub attrs: Attrs,
    /// The hyperlink this cell is inside.
    pub link: LinkId,
}

impl Cell {
    /// The left half of a wide character.
    pub open spec fn leader(self) -> bool {
        self.attrs.has(Attrs(128))
    }

    /// The right half of a wide character.
    pub open spec fn spacer(self) -> bool {
        self.attrs.has(Attrs(256))
    }

    /// The blank cell: a space in the default colours with no attributes.
    #[verifier::allow_in_spec]
    pub fn blank() -> Cell
        returns
            (Cell {
                rune: ' ',
                fg: Color::Default,
                bg: Color::Default,
                attrs: Attrs(0),
                link: LinkId(0),
            }),
    {
        Cell {
            rune: ' ',
            fg: Color::Default,
            bg: Color::Default,
            attrs: Attrs(0),
            link: LinkId(0),
        }
    }

    /// A cell carrying `rune` in the default colours, no attributes.
    pub fn new(rune: char) -> (r: Cell)
        ensures
            r == (Cell { rune, ..Cell::blank() }),
    {
        Cell {
            rune,
            fg: Color::Default,
            bg: Color::Default,
            attrs: Attrs(0),
            link: LinkId(0),
        }
    }

    /// Whether this cell is the right-half placeholder of a wide character.
    pub fn is_wide_spacer(self) -> (r: bool)
        ensures
            r == self.spacer(),
    {
        self.attrs.contains(Attrs::wide_spacer())
    }

    /// Whether this cell is the left half (the rune) of a wide character.
    pub fn is_wide_leader(self) -> (r: bool)
        ensures
            r == self.leader(),
    {
        self.attrs.contains(Attrs::wide_leader())
    }

    /// The cell as a dump shows it.
    pub open spec fn text(self) -> Seq<char> {
        "Cell("@ + crate::text::quoted_char(self.rune) + ", fg="@ + self.fg.text() + ", bg="@
            + self.bg.text() + ", "@ + self.attrs.text() + (if self.link != LinkId(0) {
            ", link="@ + crate::text::decimal_text(self.link.0 as nat)
        } else {
            Seq::empty()
        }) + ")"@
    }

    /// The cell spelled out, its link only where it has one.
    pub fn describe(self) -> (s: String)
        ensures
            s@ == self.text(),
    {
        let mut out = String::new();
        out.push_str("Cell(");
        let rune = crate::text::quote_char(self.rune);
        out.push_str(rune.as_str());
        out.push_str(", fg=");
        self.fg.describe(&mut out);
        out.push_str(", bg=");
        self.bg.describe(&mut out);
        out.push_str(", ");
        let attrs = self.attrs.describe();
        out.push_str(attrs.as_str());
        if self.link.is_set() {
            out.push_str(", link=");
            crate::text::push_number(&mut out, self.link.0 as usize);
        }
        out.push_str(")");
        assert(out@ =~= self.text());
        out
    }
}

impl Default for Cell {
    fn default() -> (r: Cell)
        ensures
            r == Cell::blank(),
    {
        Cell::blank()
    }
}

/// The cursor: a position plus the deferred-wrap flag of the last-column rule. The flag is
/// set after a glyph lands in the final column; the wrap itself waits for the next glyph.
#[derive(Clone, Copy, PartialEq, Eq, Debug, Structural)]
pub struct Cursor {
    pub row: usize,
    pub col: usize,
    pub pending_wrap: bool,
}

impl Cursor {
    /// The home position, no wrap pending.
    #[verifier::allow_in_spec]
    pub fn home() -> Cursor
        returns
            (Cursor { row: 0, col: 0, pending_wrap: false }),
    {
        Cursor { row: 0, col: 0, pending_wrap: false }
    }
}

impl Default for Cursor {
    fn default() -> (r: Cursor)
        ensures
            r == Cursor::home(),
    {
        Cursor::home()
    }
}

/// The current graphic rendition: the colours and attributes printed cells receive, plus
/// the hyperlink they fall inside. The link rides on the pen but is not an SGR attribute.
#[derive(Clone, Copy, PartialEq, Eq, Debug, Structural)]
pub struct Pen {
    pub fg: Color,
    pub bg: Color,
    pub attrs: Attrs,
    pub link: LinkId,
}

impl Pen {
    /// Default colours, no attributes, no link.
    #[verifier::allow_in_spec]
    pub fn initial() -> Pen
        returns
            (Pen { fg: Color::Default, bg: Color::Default, attrs: Attrs(0), link: LinkId(0) }),
    {
        Pen { fg: Color::Default, bg: Color::Default, attrs: Attrs(0), link: LinkId(0) }
    }

    /// The pen after SGR 0: everything but the link back to its default.
    pub open spec fn reset(self) -> Pen {
        Pen { link: self.link, ..Pen::initial() }
    }

    /// A cell printed by this pen.
    pub open spec fn cell(self, rune: char) -> Cell {
        Cell { rune, fg: self.fg, bg: self.bg, attrs: self.attrs, link: self.link }
    }

    /// The left half of a wide glyph printed by this pen.
    pub open spec fn leader(self, rune: char) -> Cell {
        Cell { attrs: self.attrs.with(Attrs(128)), ..self.cell(rune) }
    }

    /// The right half of a wide glyph printed by this pen.
    pub open spec fn spacer(self) -> Cell {
        Cell { attrs: self.attrs.with(Attrs(256)), ..self.cell(' ') }
    }

    /// The pen carries no wide bit, so what it prints is narrow until a glyph is marked.
    pub open spec fn wf(self) -> bool {
        self.attrs.narrow()
    }

    /// SGR 0: default colours, no attributes, and the hyperlink left exactly as it was.
    pub fn reset_rendition(&mut self)
        ensures
            *final(self) == old(self).reset(),
    {
        self.fg = Color::Default;
        self.bg = Color::Default;
        self.attrs = Attrs::empty();
    }

    /// A cell printed by this pen.
    pub fn narrow_cell(self, rune: char) -> (r: Cell)
        ensures
            r == self.cell(rune),
    {
        Cell { rune, fg: self.fg, bg: self.bg, attrs: self.attrs, link: self.link }
    }

    /// The left half of a wide glyph printed by this pen.
    pub fn leader_cell(self, rune: char) -> (r: Cell)
        ensures
            r == self.leader(rune),
    {
        Cell {
            rune,
            fg: self.fg,
            bg: self.bg,
            attrs: self.attrs | Attrs::wide_leader(),
            link: self.link,
        }
    }

    /// The right half of a wide glyph printed by this pen.
    pub fn spacer_cell(self) -> (r: Cell)
        ensures
            r == self.spacer(),
    {
        Cell {
            rune: ' ',
            fg: self.fg,
            bg: self.bg,
            attrs: self.attrs | Attrs::wide_spacer(),
            link: self.link,
        }
    }
}

impl Default for Pen {
    fn default() -> (r: Pen)
        ensures
            r == Pen::initial(),
    {
        Pen::initial()
    }
}

/// What a pen prints is marked as it should be.
pub proof fn lemma_pen_cells(pen: Pen, rune: char)
    requires
        pen.wf(),
    ensures
        !pen.cell(rune).leader() && !pen.cell(rune).spacer(),
        pen.leader(rune).leader() && !pen.leader(rune).spacer(),
        pen.spacer().spacer() && !pen.spacer().leader(),
{
    lemma_wide_bits(pen.attrs);
}

/// Neither half of a wide character, whatever the rune and the colours.
pub open spec fn narrow_cell(c: Cell) -> bool {
    !c.leader() && !c.spacer()
}

/// A cell without attributes is narrow.
pub proof fn lemma_plain_cell(c: Cell)
    requires
        c.attrs == Attrs(0),
    ensures
        narrow_cell(c),
{
    lemma_wide_bits(c.attrs);
}

/// A designated character set: ASCII, or the DEC line-drawing set.
#[derive(Clone, Copy, PartialEq, Eq, Debug, Structural)]
pub enum Charset {
    Ascii,
    DecSpecialGraphics,
}

/// The character set shift state: what G0 and G1 are designated as, and which one GL
/// reads through.
#[derive(Clone, Copy, PartialEq, Eq, Debug, Structural)]
pub struct Charsets {
    pub g0: Charset,
    pub g1: Charset,
    pub gl_is_g1: bool,
}

impl Charsets {
    /// Both sets ASCII, G0 in use.
    #[verifier::allow_in_spec]
    pub fn initial() -> Charsets
        returns
            (Charsets { g0: Charset::Ascii, g1: Charset::Ascii, gl_is_g1: false }),
    {
        Charsets { g0: Charset::Ascii, g1: Charset::Ascii, gl_is_g1: false }
    }
}

/// A saved cursor: position, pen, origin mode and character sets.
#[derive(Clone, Copy, PartialEq, Eq, Debug, Structural)]
pub struct Saved {
    pub cursor: Cursor,
    pub pen: Pen,
    pub origin: bool,
    pub charsets: Charsets,
}

} // verus!
