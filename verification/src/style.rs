//! Renditions interned once and cited by id, and the packed form of a cell that cites one.
//!
//! Most cells are unstyled, and where there is styling it is overwhelmingly shared, so a
//! stored cell can name its rendition in two bytes instead of spelling it out. The rune and
//! the place in a wide pair share one word: a scalar needs only 21 of its bits. This is for a
//! caller that keeps cells of its own; the screen stores them spelled out.
use std::collections::HashMap;
use vstd::prelude::*;
use crate::attrs::{lemma_wide_split, Attrs};
use crate::cell::{Cell, LinkId, Pen};
use crate::color::Color;
use crate::ids::RowEpoch;
use crate::text::{decimal_text, push_number, quote_char, quoted_char};

verus! {

/// How many distinct renditions can be held at once beyond the default.
pub const STYLE_LIMIT: usize = 65534;

/// Where the place in a wide pair starts in the packed word.
pub const WIDTH_UNIT: u32 = 0x20_0000;

/// How a cell sits in a wide character: a fact about layout rather than about rendition.
#[derive(Clone, Copy, PartialEq, Eq, Hash, Debug, Structural)]
pub enum CellWidth {
    /// One column, the overwhelming majority.
    Narrow,
    /// The left half of a wide character; carries the rune.
    Leader,
    /// The right half of a wide character; a placeholder the cursor skips.
    Spacer,
}

impl CellWidth {
    /// The number that stands for it.
    pub open spec fn number(self) -> int {
        match self {
            CellWidth::Narrow => 0,
            CellWidth::Leader => 1,
            CellWidth::Spacer => 2,
        }
    }

    /// The name a dump shows.
    pub open spec fn name(self) -> Seq<char> {
        match self {
            CellWidth::Narrow => "Narrow"@,
            CellWidth::Leader => "Leader"@,
            CellWidth::Spacer => "Spacer"@,
        }
    }
}

impl Default for CellWidth {
    fn default() -> (r: CellWidth)
        ensures
            r == CellWidth::Narrow,
    {
        CellWidth::Narrow
    }
}

/// A cell's rendition: the colours and attributes a program sets, and nothing that varies
/// from cell to cell within a run.
#[derive(Clone, Copy, PartialEq, Eq, Hash, Debug, Structural)]
pub struct Style {
    pub fg: Color,
    pub bg: Color,
    pub attrs: Attrs,
}

impl Style {
    /// Default colours, no attributes.
    #[verifier::allow_in_spec]
    pub fn initial() -> Style
        returns
            (Style { fg: Color::Default, bg: Color::Default, attrs: Attrs(0) }),
    {
        Style { fg: Color::Default, bg: Color::Default, attrs: Attrs(0) }
    }
}

impl Default for Style {
    fn default() -> (r: Style)
        ensures
            r == Style::initial(),
    {
        Style::initial()
    }
}

/// A rendition by number; zero is the default one, which no table needs to hold.
#[derive(Clone, Copy, PartialEq, Eq, Hash, Debug, Structural)]
pub struct StyleId(pub u16);

impl StyleId {
    /// Default colours, no attributes.
    #[verifier::allow_in_spec]
    pub fn initial() -> StyleId
        returns
            StyleId(0),
    {
        StyleId(0)
    }
}

impl Default for StyleId {
    fn default() -> (r: StyleId)
        ensures
            r == StyleId(0),
    {
        StyleId(0)
    }
}

impl Cell {
    /// The rendition half of the cell.
    pub open spec fn rendition(self) -> Style {
        Style { fg: self.fg, bg: self.bg, attrs: self.attrs.without(Attrs(0x0180)) }
    }

    /// The layout half of the cell.
    pub open spec fn place(self) -> CellWidth {
        if self.spacer() {
            CellWidth::Spacer
        } else if self.leader() {
            CellWidth::Leader
        } else {
            CellWidth::Narrow
        }
    }

    /// The rendition half of this cell, which is what gets interned.
    pub fn style(self) -> (r: Style)
        ensures
            r == self.rendition(),
    {
        let mut attrs = self.attrs;
        attrs.remove(Attrs(0x0180));
        Style { fg: self.fg, bg: self.bg, attrs }
    }

    /// Where this cell sits in a wide character, if it is in one at all.
    pub fn width(self) -> (r: CellWidth)
        ensures
            r == self.place(),
    {
        if self.is_wide_spacer() {
            CellWidth::Spacer
        } else if self.is_wide_leader() {
            CellWidth::Leader
        } else {
            CellWidth::Narrow
        }
    }
}

/// Attributes with the place in a wide pair marked on them.
pub open spec fn marked_attrs(a: Attrs, w: CellWidth) -> Attrs {
    match w {
        CellWidth::Narrow => a,
        CellWidth::Leader => a.with(Attrs(128)),
        CellWidth::Spacer => a.with(Attrs(256)),
    }
}

/// A cell as it is stored.
#[derive(Clone, Copy, PartialEq, Eq, Hash, Structural)]
pub struct PackedCell {
    pub packed: u32,
    pub style: StyleId,
    pub link: LinkId,
}

impl PackedCell {
    /// The rune in the word.
    pub open spec fn rune_of(self) -> char {
        let v = self.packed % WIDTH_UNIT;
        if v <= 0xd7ff || 0xe000 <= v <= 0x10ffff {
            v as char
        } else {
            ' '
        }
    }

    /// The place in a wide pair.
    pub open spec fn width_of(self) -> CellWidth {
        let n = self.packed / WIDTH_UNIT;
        if n == 1 {
            CellWidth::Leader
        } else if n == 2 {
            CellWidth::Spacer
        } else {
            CellWidth::Narrow
        }
    }

    /// A cell carrying `rune` in this place, rendition and link.
    pub fn new(rune: char, width: CellWidth, style: StyleId, link: LinkId) -> (r: PackedCell)
        ensures
            r.packed == packed_word(rune, width),
            r.style == style,
            r.link == link,
            r.rune_of() == rune,
            r.width_of() == width,
    {
        let n: u32 = match width {
            CellWidth::Narrow => 0,
            CellWidth::Leader => 1,
            CellWidth::Spacer => 2,
        };
        let v: u32 = rune as u32;
        proof {
            lemma_packed_word(rune, width);
        }
        PackedCell { packed: v + n * WIDTH_UNIT, style, link }
    }

    /// A single-column cell carrying `rune` in the default rendition and no link.
    pub fn plain(rune: char) -> (r: PackedCell)
        ensures
            r.packed == packed_word(rune, CellWidth::Narrow),
            r.style == StyleId(0),
            r.link == LinkId(0),
            r.rune_of() == rune,
            r.width_of() == CellWidth::Narrow,
    {
        PackedCell::new(rune, CellWidth::Narrow, StyleId::initial(), LinkId::none())
    }

    /// The base rune. A word that holds no scalar reads as a space: no read may fail.
    pub fn rune(self) -> (r: char)
        ensures
            r == self.rune_of(),
    {
        match char::from_u32(self.packed % WIDTH_UNIT) {
            Some(c) => c,
            None => ' ',
        }
    }

    /// The place in a wide pair.
    pub fn width(self) -> (r: CellWidth)
        ensures
            r == self.width_of(),
    {
        match self.packed / WIDTH_UNIT {
            1 => CellWidth::Leader,
            2 => CellWidth::Spacer,
            _ => CellWidth::Narrow,
        }
    }

    /// The id of the rendition.
    pub fn style_id(self) -> (r: StyleId)
        ensures
            r == self.style,
    {
        self.style
    }

    /// This cell in a different place in a wide pair, keeping its rune and rendition.
    pub fn with_width(self, width: CellWidth) -> (r: PackedCell)
        ensures
            r.packed == packed_word(self.rune_of(), width),
            r.rune_of() == self.rune_of(),
            r.width_of() == width,
            r.style == self.style,
            r.link == self.link,
    {
        PackedCell::new(self.rune(), width, self.style, self.link)
    }

    /// Cite another rendition.
    pub fn set_style_id(&mut self, id: StyleId)
        ensures
            *final(self) == (PackedCell { style: id, ..*old(self) }),
    {
        self.style = id;
    }

    /// Whether this cell is the right-half placeholder of a wide character.
    pub fn is_wide_spacer(self) -> (r: bool)
        ensures
            r == (self.width_of() == CellWidth::Spacer),
    {
        self.width() == CellWidth::Spacer
    }

    /// Whether this cell is the left half of a wide character.
    pub fn is_wide_leader(self) -> (r: bool)
        ensures
            r == (self.width_of() == CellWidth::Leader),
    {
        self.width() == CellWidth::Leader
    }

    /// The cell as a dump shows it.
    pub open spec fn text(self) -> Seq<char> {
        "PackedCell("@ + quoted_char(self.rune_of()) + ", style="@ + decimal_text(
            self.style.0 as nat,
        ) + (if self.width_of() != CellWidth::Narrow {
            ", "@ + self.width_of().name()
        } else {
            Seq::empty()
        }) + (if self.link != LinkId(0) {
            ", link="@ + decimal_text(self.link.0 as nat)
        } else {
            Seq::empty()
        }) + ")"@
    }

    /// The cell unpacked and spelled out.
    pub fn describe(self) -> (s: String)
        ensures
            s@ == self.text(),
    {
        let mut out = String::new();
        out.push_str("PackedCell(");
        let rune = quote_char(self.rune());
        out.push_str(rune.as_str());
        out.push_str(", style=");
        push_number(&mut out, self.style.0 as usize);
        match self.width() {
            CellWidth::Narrow => {},
            CellWidth::Leader => out.push_str(", Leader"),
            CellWidth::Spacer => out.push_str(", Spacer"),
        }
        if self.link.is_set() {
            out.push_str(", link=");
            push_number(&mut out, self.link.0 as usize);
        }
        out.push_str(")");
        proof {
            reveal_strlit(", ");
            reveal_strlit(", Leader");
            reveal_strlit(", Spacer");
            reveal_strlit("Leader");
            reveal_strlit("Spacer");
            assert(", Leader"@ =~= ", "@ + "Leader"@);
            assert(", Spacer"@ =~= ", "@ + "Spacer"@);
        }
        assert(out@ =~= self.text());
        out
    }
}

impl Default for PackedCell {
    fn default() -> (r: PackedCell)
        ensures
            r.packed == packed_word(' ', CellWidth::Narrow),
            r.style == StyleId(0),
            r.link == LinkId(0),
    {
        PackedCell::plain(' ')
    }
}

/// The word of a scalar and a place.
pub open spec fn packed_word(c: char, w: CellWidth) -> int {
    c as u32 + w.number() * WIDTH_UNIT
}

/// A word reads back as the scalar and the place it was made of.
pub proof fn lemma_packed_word(c: char, w: CellWidth)
    ensures
        0 <= packed_word(c, w) <= u32::MAX,
        packed_word(c, w) % (WIDTH_UNIT as int) == c as u32,
        packed_word(c, w) / (WIDTH_UNIT as int) == w.number(),
        c as u32 <= 0xd7ff || 0xe000 <= c as u32 <= 0x10ffff,
        (c as u32) as char == c,
{
}

/// The renditions in a table, in order of their ids.
pub struct StyleTable {
    /// `styles[i]` is the rendition of id `i + 1`, since zero is the default.
    pub styles: Vec<Style>,
    /// The id of each rendition, by its number.
    pub index: HashMap<u128, StyleId>,
    /// Where the grid was the last time a sweep reclaimed nothing: a full table of live
    /// renditions must not buy a fresh walk over every cell with each new one.
    pub swept_dry_at: Option<(RowEpoch, u64)>,
}

/// The number that stands for a colour.
pub open spec fn color_number(c: Color) -> int {
    match c {
        Color::Default => 0,
        Color::Ansi(i) => 1 + i,
        Color::Indexed(i) => 0x101 + i,
        Color::Rgb(r, g, b) => 0x201 + r * 0x1_0000 + g * 0x100 + b,
    }
}

/// The number that stands for a rendition: its colours, then its attributes.
pub open spec fn style_number(s: Style) -> int {
    (color_number(s.fg) * 0x200_0000 + color_number(s.bg)) * 0x1_0000 + s.attrs.0
}

proof fn lemma_color_number(a: Color, b: Color)
    ensures
        0 <= color_number(a) < 0x200_0000,
        color_number(a) == color_number(b) ==> a == b,
{
}

/// Different renditions have different numbers.
pub proof fn lemma_style_number(a: Style, b: Style)
    ensures
        0 <= style_number(a) <= u128::MAX,
        style_number(a) == style_number(b) ==> a == b,
{
    lemma_color_number(a.fg, b.fg);
    lemma_color_number(a.bg, b.bg);
    lemma_color_number(b.fg, a.fg);
    lemma_color_number(b.bg, a.bg);
}

fn number_of_color(c: Color) -> (r: u128)
    ensures
        r == color_number(c),
{
    match c {
        Color::Default => 0,
        Color::Ansi(i) => 1 + i as u128,
        Color::Indexed(i) => 0x101 + i as u128,
        Color::Rgb(r, g, b) => 0x201 + r as u128 * 0x1_0000 + g as u128 * 0x100 + b as u128,
    }
}

fn number_of_style(s: Style) -> (r: u128)
    ensures
        r == style_number(s),
{
    proof {
        lemma_color_number(s.fg, s.bg);
        lemma_color_number(s.bg, s.fg);
    }
    (number_of_color(s.fg) * 0x200_0000 + number_of_color(s.bg)) * 0x1_0000 + s.attrs.0 as u128
}

/// Where a rendition stands in a table, if it does.
pub open spec fn style_position(styles: Seq<Style>, s: Style) -> Option<int>
    decreases styles.len(),
{
    if styles.len() == 0 {
        None
    } else if styles.last() == s {
        Some(styles.len() - 1)
    } else {
        style_position(styles.drop_last(), s)
    }
}

/// The rendition behind an id; an id the table does not hold is the default.
pub open spec fn style_of(styles: Seq<Style>, id: StyleId) -> Style {
    if 1 <= id.0 <= styles.len() {
        styles[id.0 - 1]
    } else {
        Style::initial()
    }
}

/// The id of a rendition once it is interned.
pub open spec fn style_id_of(styles: Seq<Style>, s: Style) -> Option<StyleId> {
    if s == Style::initial() {
        Some(StyleId(0))
    } else {
        match style_position(styles, s) {
            Some(i) => Some(StyleId((i + 1) as u16)),
            None => if styles.len() >= STYLE_LIMIT {
                None
            } else {
                Some(StyleId((styles.len() + 1) as u16))
            },
        }
    }
}

/// The table once a rendition is interned.
pub open spec fn style_interned(styles: Seq<Style>, s: Style) -> Seq<Style> {
    if s != Style::initial() && style_position(styles, s) is None && styles.len() < STYLE_LIMIT {
        styles.push(s)
    } else {
        styles
    }
}

/// Whether `live` marks the rendition in slot `i`.
pub open spec fn style_alive(live: Seq<bool>, i: int) -> bool {
    i + 1 < live.len() && live[i + 1]
}

/// The live ones of the first `k` renditions.
pub open spec fn kept_styles(styles: Seq<Style>, live: Seq<bool>, k: int) -> Seq<Style>
    decreases k,
{
    if k <= 0 {
        Seq::empty()
    } else if style_alive(live, k - 1) {
        kept_styles(styles, live, k - 1).push(styles[k - 1])
    } else {
        kept_styles(styles, live, k - 1)
    }
}

/// The new id of each old one; the default and the dropped become the default.
pub open spec fn new_style_ids(styles: Seq<Style>, live: Seq<bool>) -> Seq<StyleId> {
    Seq::new(
        styles.len() + 1,
        |id: int|
            if id > 0 && style_alive(live, id - 1) {
                StyleId(kept_styles(styles, live, id).len() as u16)
            } else {
                StyleId(0)
            },
    )
}

/// Where a rendition stands in a table, and none only where it stands nowhere.
proof fn lemma_style_position(styles: Seq<Style>, s: Style)
    ensures
        style_position(styles, s) matches Some(i) ==> 0 <= i < styles.len() && styles[i] == s,
        style_position(styles, s) is None ==> forall|i: int|
            0 <= i < styles.len() ==> #[trigger] styles[i] != s,
    decreases styles.len(),
{
    if styles.len() > 0 && styles.last() != s {
        lemma_style_position(styles.drop_last(), s);
        assert forall|i: int| 0 <= i < styles.len() && style_position(styles, s) is None implies
            #[trigger] styles[i] != s by {
            if i < styles.len() - 1 {
                assert(styles.drop_last()[i] == styles[i]);
            }
        }
    }
}

/// No rendition is held twice.
pub open spec fn styles_distinct(styles: Seq<Style>) -> bool {
    forall|i: int, j: int|
        0 <= i < j < styles.len() ==> #[trigger] styles[i] != #[trigger] styles[j]
}

impl StyleTable {
    /// Distinct renditions other than the default, no more than there are ids, and an index of
    /// just those, each under its id.
    pub open spec fn wf(&self) -> bool {
        &&& self.styles@.len() <= STYLE_LIMIT
        &&& styles_distinct(self.styles@)
        &&& forall|i: int|
            0 <= i < self.styles@.len() ==> (#[trigger] self.styles@[i]) != Style::initial()
                && self.index@.contains_key(style_number(self.styles@[i]) as u128)
                && self.index@[style_number(self.styles@[i]) as u128] == StyleId((i + 1) as u16)
        &&& forall|k: u128| #[trigger]
            self.index@.contains_key(k) ==> exists|i: int|
                0 <= i < self.styles@.len() && style_number(#[trigger] self.styles@[i]) == k
    }

    /// A table of nothing.
    pub fn new() -> (t: StyleTable)
        ensures
            t.styles@ == Seq::<Style>::empty(),
            t.swept_dry_at is None,
            t.wf(),
    {
        StyleTable { styles: Vec::new(), index: HashMap::new(), swept_dry_at: None }
    }

    /// The id for `style`, interning it if it is new. `None` when the table is full.
    pub fn intern(&mut self, style: Style) -> (r: Option<StyleId>)
        requires
            old(self).wf(),
        ensures
            r == style_id_of(old(self).styles@, style),
            final(self).styles@ == style_interned(old(self).styles@, style),
            final(self).swept_dry_at == old(self).swept_dry_at,
            final(self).wf(),
    {
        if style == Style::initial() {
            return Some(StyleId::initial());
        }
        let ghost before = self.styles@;
        let key = number_of_style(style);
        proof {
            lemma_style_position(before, style);
        }
        if let Some(id) = self.index.get(&key) {
            proof {
                let i = choose|i: int|
                    0 <= i < before.len() && style_number(#[trigger] before[i]) == key;
                lemma_style_number(before[i], style);
                assert(before[i] == style);
                let j = style_position(before, style)->0;
                assert(i == j) by {
                    if i < j {
                        assert(before[i] != before[j]);
                    } else if j < i {
                        assert(before[j] != before[i]);
                    }
                }
            }
            return Some(*id);
        }
        proof {
            assert forall|i: int| 0 <= i < before.len() implies #[trigger] before[i] != style by {
                assert(self.index@.contains_key(style_number(before[i]) as u128));
            }
        }
        if self.styles.len() >= STYLE_LIMIT {
            return None;
        }
        let ghost known = self.index@;
        let id = StyleId((self.styles.len() + 1) as u16);
        self.styles.push(style);
        self.index.insert(key, id);
        proof {
            let after = self.styles@;
            assert forall|i: int| 0 <= i < after.len() implies (#[trigger] after[i])
                != Style::initial() && self.index@.contains_key(style_number(after[i]) as u128)
                && self.index@[style_number(after[i]) as u128] == StyleId((i + 1) as u16) by {
                lemma_style_number(after[i], style);
                if i < before.len() {
                    assert(after[i] == before[i]);
                    assert(known.contains_key(style_number(before[i]) as u128));
                }
            }
            assert forall|k: u128| #[trigger] self.index@.contains_key(k) implies exists|i: int|
                0 <= i < after.len() && style_number(#[trigger] after[i]) == k by {
                if k == key {
                    assert(style_number(after[before.len() as int]) == k);
                } else {
                    assert(known.contains_key(k));
                    let i = choose|i: int|
                        0 <= i < before.len() && style_number(#[trigger] before[i]) == k;
                    assert(after[i] == before[i]);
                }
            }
            assert forall|i: int, j: int| 0 <= i < j < after.len() implies #[trigger] after[i]
                != #[trigger] after[j] by {
                if j == before.len() {
                    assert(before[i] != style);
                } else {
                    assert(before[i] != before[j]);
                }
            }
        }
        Some(id)
    }

    /// The rendition behind `id`. An id this table does not hold resolves to the default,
    /// which keeps every cell read total.
    pub fn get(&self, id: StyleId) -> (r: Style)
        ensures
            r == style_of(self.styles@, id),
    {
        if id.0 >= 1 && (id.0 as usize) <= self.styles.len() {
            self.styles[id.0 as usize - 1]
        } else {
            Style::initial()
        }
    }

    /// Drop every rendition `live` does not mark and renumber the survivors, returning the
    /// map from old ids to new ones.
    pub fn compact(&mut self, live: &Vec<bool>) -> (ids: Vec<StyleId>)
        requires
            old(self).wf(),
        ensures
            final(self).styles@ == kept_styles(
                old(self).styles@,
                live@,
                old(self).styles@.len() as int,
            ),
            ids@ == new_style_ids(old(self).styles@, live@),
            final(self).swept_dry_at == old(self).swept_dry_at,
            final(self).wf(),
    {
        let ghost before = self.styles@;
        let mut ids: Vec<StyleId> = Vec::new();
        ids.push(StyleId(0));
        let mut kept = StyleTable::new();
        let mut slot: usize = 0;
        while slot < self.styles.len()
            invariant
                slot <= self.styles@.len(),
                self.styles@ == before,
                self.swept_dry_at == old(self).swept_dry_at,
                self.wf(),
                kept.wf(),
                kept.styles@ == kept_styles(before, live@, slot as int),
                ids@.len() == slot + 1,
                forall|id: int|
                    0 <= id <= slot ==> #[trigger] ids@[id] == new_style_ids(before, live@)[id],
            decreases self.styles.len() - slot,
        {
            proof {
                lemma_kept_styles(before, live@, slot as int);
                lemma_kept_styles_len(before, live@, slot as int);
            }
            if slot + 1 < live.len() && live[slot + 1] {
                let style = self.styles[slot];
                proof {
                    assert(before[slot as int] == style);
                    lemma_style_position(kept.styles@, style);
                }
                match kept.intern(style) {
                    Some(id) => ids.push(id),
                    None => ids.push(StyleId(0)),
                }
            } else {
                ids.push(StyleId(0));
            }
            slot = slot + 1;
        }
        assert(ids@ =~= new_style_ids(before, live@));
        self.styles = kept.styles;
        self.index = kept.index;
        ids
    }

    /// A stored cell as every reader sees it.
    pub open spec fn unpacked(&self, c: PackedCell) -> Cell {
        let s = style_of(self.styles@, c.style);
        Cell {
            rune: c.rune_of(),
            fg: s.fg,
            bg: s.bg,
            attrs: marked_attrs(s.attrs, c.width_of()),
            link: c.link,
        }
    }

    /// Resolve a stored cell.
    pub fn resolve(&self, c: PackedCell) -> (r: Cell)
        ensures
            r == self.unpacked(c),
    {
        let s = self.get(c.style_id());
        let attrs = match c.width() {
            CellWidth::Narrow => s.attrs,
            CellWidth::Leader => s.attrs | Attrs::wide_leader(),
            CellWidth::Spacer => s.attrs | Attrs::wide_spacer(),
        };
        Cell { rune: c.rune(), fg: s.fg, bg: s.bg, attrs, link: c.link }
    }

    /// Pack a cell, interning its rendition. `None` when the table is full.
    pub fn pack(&mut self, cell: Cell) -> (r: Option<PackedCell>)
        requires
            old(self).wf(),
        ensures
            r is None <==> style_id_of(old(self).styles@, cell.rendition()) is None,
            r matches Some(p) ==> p.packed == packed_word(cell.rune, cell.place())
                && p.rune_of() == cell.rune && p.width_of() == cell.place() && p.link == cell.link
                && Some(p.style) == style_id_of(old(self).styles@, cell.rendition()),
            final(self).styles@ == style_interned(old(self).styles@, cell.rendition()),
            final(self).swept_dry_at == old(self).swept_dry_at,
            final(self).wf(),
    {
        match self.intern(cell.style()) {
            Some(id) => Some(PackedCell::new(cell.rune, cell.width(), id, cell.link)),
            None => None,
        }
    }

    /// Reclaim the ids of renditions that neither a stored cell nor the pen cites any more,
    /// and give the id the pen's has become.
    pub fn collect_styles(&mut self, cells: &mut Vec<PackedCell>, pen: StyleId) -> (r: StyleId)
        requires
            old(self).wf(),
        ensures
            final(cells)@ == cells_restyled(
                old(cells)@,
                swept_ids(old(self).styles@, old(cells)@, pen),
            ),
            r == restyled(swept_ids(old(self).styles@, old(cells)@, pen), pen),
            final(self).styles@ == swept_styles(old(self).styles@, old(cells)@, pen),
            final(self).swept_dry_at == old(self).swept_dry_at,
            final(self).wf(),
    {
        let ghost styles = self.styles@;
        let ghost before = cells@;
        let mut live: Vec<bool> = Vec::new();
        let n: usize = self.styles.len() + 1;
        while live.len() < n
            invariant
                live@.len() <= n,
                forall|i: int| 0 <= i < live@.len() ==> !#[trigger] live@[i],
            decreases n - live.len(),
        {
            live.push(false);
        }
        let mut k: usize = 0;
        while k < cells.len()
            invariant
                k <= cells@.len(),
                cells@ == before,
                live@.len() == styles.len() + 1,
                styles.len() <= STYLE_LIMIT,
                forall|i: int|
                    0 <= i < live@.len() ==> #[trigger] live@[i] == styles_cited(
                        before,
                        k as int,
                        StyleId(i as u16),
                    ),
            decreases cells.len() - k,
        {
            let ghost was = live@;
            let slot: usize = cells[k].style.0 as usize;
            if slot < live.len() {
                live.set(slot, true);
            }
            assert forall|i: int| 0 <= i < live@.len() implies #[trigger] live@[i] == styles_cited(
                before,
                k + 1,
                StyleId(i as u16),
            ) by {
                assert(was[i] == styles_cited(before, k as int, StyleId(i as u16)));
                assert(StyleId(i as u16) == before[k as int].style <==> i == slot);
            }
            k = k + 1;
        }
        let slot: usize = pen.0 as usize;
        if slot < live.len() {
            live.set(slot, true);
        }
        assert(live@ =~= live_styles(styles, before, pen)) by {
            assert forall|i: int| 0 <= i < live@.len() implies live@[i] == live_styles(
                styles,
                before,
                pen,
            )[i] by {
                assert(StyleId(i as u16) == pen <==> i == slot);
            }
        }
        let ids = self.compact(&live);
        let mut k: usize = 0;
        while k < cells.len()
            invariant
                k <= cells@.len(),
                cells@.len() == before.len(),
                forall|j: int|
                    0 <= j < before.len() ==> #[trigger] cells@[j] == (if j < k {
                        PackedCell { style: restyled(ids@, before[j].style), ..before[j] }
                    } else {
                        before[j]
                    }),
            decreases cells.len() - k,
        {
            let c = cells[k];
            let id = new_style(&ids, c.style);
            cells.set(k, PackedCell { style: id, ..c });
            k = k + 1;
        }
        assert(cells@ =~= cells_restyled(before, ids@));
        new_style(&ids, pen)
    }

    /// The id for `style` and the id the pen's has become. A full table is swept first; the
    /// default is handed out where even that frees no id, and the place is noted, so that
    /// no sweep is repeated while the grid has not moved on. The text is then still there,
    /// it just draws unstyled.
    pub fn intern_style(
        &mut self,
        style: Style,
        cells: &mut Vec<PackedCell>,
        pen: StyleId,
        at: (RowEpoch, u64),
    ) -> (r: (StyleId, StyleId))
        requires
            old(self).wf(),
        ensures
            style_id_of(old(self).styles@, style) matches Some(id) ==> r == (id, pen)
                && final(cells)@ == old(cells)@ && final(self).styles@ == style_interned(
                old(self).styles@,
                style,
            ) && final(self).swept_dry_at == old(self).swept_dry_at,
            style_id_of(old(self).styles@, style) is None && old(self).swept_dry_at == Some(at)
                ==> r == (StyleId(0), pen) && final(cells)@ == old(cells)@
                && final(self).styles@ == old(self).styles@ && final(self).swept_dry_at == old(
                self,
            ).swept_dry_at,
            style_id_of(old(self).styles@, style) is None && old(self).swept_dry_at != Some(at)
                ==> {
                let swept = swept_styles(old(self).styles@, old(cells)@, pen);
                let ids = swept_ids(old(self).styles@, old(cells)@, pen);
                &&& final(cells)@ == cells_restyled(old(cells)@, ids)
                &&& r.1 == restyled(ids, pen)
                &&& final(self).styles@ == style_interned(swept, style)
                &&& style_id_of(swept, style) matches Some(id) ==> r.0 == id
                    && final(self).swept_dry_at == old(self).swept_dry_at
                &&& style_id_of(swept, style) is None ==> r.0 == StyleId(0)
                    && final(self).swept_dry_at == Some(at)
            },
            final(self).wf(),
    {
        if let Some(id) = self.intern(style) {
            return (id, pen);
        }
        if let Some(dry) = self.swept_dry_at {
            if dry.0 == at.0 && dry.1 == at.1 {
                return (StyleId::initial(), pen);
            }
        }
        let pen = self.collect_styles(cells, pen);
        match self.intern(style) {
            Some(id) => (id, pen),
            None => {
                self.swept_dry_at = Some(at);
                (StyleId::initial(), pen)
            },
        }
    }
}

/// The pen as a stored cell carries it: the rendition already interned, and the hyperlink.
#[derive(Clone, Copy, PartialEq, Eq, Debug, Structural)]
pub struct PackedPen {
    pub style: StyleId,
    pub link: LinkId,
}

/// The rendition last interned for the pen and its id. The pen is held against the rendition
/// itself rather than a flag that someone has to clear, so the pair cannot go stale.
#[derive(Clone, Copy, PartialEq, Eq, Debug, Structural)]
pub struct PenStyle {
    pub style: Style,
    pub id: StyleId,
}

impl Pen {
    /// The rendition the pen writes in.
    pub open spec fn rendition(self) -> Style {
        Style { fg: self.fg, bg: self.bg, attrs: self.attrs }
    }

    /// The rendition the pen writes in.
    pub fn style(self) -> (r: Style)
        ensures
            r == self.rendition(),
    {
        Style { fg: self.fg, bg: self.bg, attrs: self.attrs }
    }
}

impl StyleTable {
    /// The pen in the form a run is written with: its rendition interned, at most once for as
    /// long as the pen does not change. A sweep that makes room leaves every other rendition
    /// as it draws.
    pub fn packed_pen(
        &mut self,
        pen: Pen,
        last: &mut PenStyle,
        cells: &mut Vec<PackedCell>,
        at: (RowEpoch, u64),
    ) -> (r: PackedPen)
        requires
            old(self).wf(),
        ensures
            r == (PackedPen { style: final(last).id, link: pen.link }),
            old(last).style == pen.rendition() ==> *final(last) == *old(last) && final(cells)@
                == old(cells)@ && final(self).styles@ == old(self).styles@
                && final(self).swept_dry_at == old(self).swept_dry_at,
            old(last).style != pen.rendition() ==> final(last).style == pen.rendition(),
            old(last).style != pen.rendition() ==> (style_id_of(
                old(self).styles@,
                pen.rendition(),
            ) matches Some(id) ==> final(last).id == id && final(cells)@ == old(cells)@
                && final(self).styles@ == style_interned(old(self).styles@, pen.rendition())
                && final(self).swept_dry_at == old(self).swept_dry_at),
            old(last).style != pen.rendition() && style_id_of(old(self).styles@, pen.rendition())
                is None && old(self).swept_dry_at == Some(at) ==> final(last).id == StyleId(0)
                && final(cells)@ == old(cells)@ && final(self).styles@ == old(self).styles@
                && final(self).swept_dry_at == old(self).swept_dry_at,
            old(last).style != pen.rendition() && style_id_of(old(self).styles@, pen.rendition())
                is None && old(self).swept_dry_at != Some(at) ==> {
                let swept = swept_styles(old(self).styles@, old(cells)@, old(last).id);
                let ids = swept_ids(old(self).styles@, old(cells)@, old(last).id);
                &&& final(cells)@ == cells_restyled(old(cells)@, ids)
                &&& final(self).styles@ == style_interned(swept, pen.rendition())
                &&& style_id_of(swept, pen.rendition()) matches Some(id) ==> final(last).id == id
                    && final(self).swept_dry_at == old(self).swept_dry_at
                &&& style_id_of(swept, pen.rendition()) is None ==> final(last).id == StyleId(0)
                    && final(self).swept_dry_at == Some(at)
            },
            final(self).wf(),
    {
        let style = pen.style();
        if last.style != style {
            let (id, _) = self.intern_style(style, cells, last.id, at);
            *last = PenStyle { style, id };
        }
        PackedPen { style: last.id, link: pen.link }
    }
}

/// The cells once their renditions are renumbered.
pub open spec fn cells_restyled(cells: Seq<PackedCell>, ids: Seq<StyleId>) -> Seq<PackedCell> {
    Seq::new(
        cells.len(),
        |i: int| PackedCell { style: restyled(ids, cells[i].style), ..cells[i] },
    )
}

/// The renditions a sweep keeps.
pub open spec fn swept_styles(styles: Seq<Style>, cells: Seq<PackedCell>, pen: StyleId) -> Seq<
    Style,
> {
    kept_styles(styles, live_styles(styles, cells, pen), styles.len() as int)
}

/// The new id a sweep gives each old one.
pub open spec fn swept_ids(styles: Seq<Style>, cells: Seq<PackedCell>, pen: StyleId) -> Seq<
    StyleId,
> {
    new_style_ids(styles, live_styles(styles, cells, pen))
}

/// What `ids` makes of a rendition's id.
pub open spec fn restyled(ids: Seq<StyleId>, id: StyleId) -> StyleId {
    if id.0 < ids.len() {
        ids[id.0 as int]
    } else {
        StyleId(0)
    }
}

/// Whether one of the first `k` cells cites a rendition.
pub open spec fn styles_cited(cells: Seq<PackedCell>, k: int, id: StyleId) -> bool
    decreases k,
{
    k > 0 && (cells[k - 1].style == id || styles_cited(cells, k - 1, id))
}

/// Which ids the cells and the pen cite.
pub open spec fn live_styles(styles: Seq<Style>, cells: Seq<PackedCell>, pen: StyleId) -> Seq<
    bool,
> {
    Seq::new(
        styles.len() + 1,
        |i: int|
            styles_cited(cells, cells.len() as int, StyleId(i as u16)) || pen == StyleId(i as u16),
    )
}

fn new_style(ids: &Vec<StyleId>, id: StyleId) -> (r: StyleId)
    ensures
        r == restyled(ids@, id),
{
    let slot: usize = id.0 as usize;
    if slot < ids.len() {
        ids[slot]
    } else {
        StyleId::initial()
    }
}

/// An interned rendition reads back, and so does every one there was.
pub proof fn lemma_style_reads_back(styles: Seq<Style>, s: Style)
    requires
        styles.len() <= STYLE_LIMIT,
    ensures
        style_id_of(styles, s) matches Some(id) ==> style_of(style_interned(styles, s), id) == s,
        forall|id: StyleId|
            id.0 <= styles.len() ==> #[trigger] style_of(style_interned(styles, s), id)
                == style_of(styles, id),
{
    lemma_style_position(styles, s);
}

/// A packed cell resolves to the cell it was packed from.
pub proof fn lemma_pack_round_trip(styles: Seq<Style>, cell: Cell, t: StyleTable, p: PackedCell)
    requires
        styles.len() <= STYLE_LIMIT,
        !(cell.leader() && cell.spacer()),
        t.styles@ == style_interned(styles, cell.rendition()),
        Some(p.style) == style_id_of(styles, cell.rendition()),
        p.rune_of() == cell.rune,
        p.width_of() == cell.place(),
        p.link == cell.link,
    ensures
        t.unpacked(p) == cell,
{
    lemma_style_reads_back(styles, cell.rendition());
    lemma_wide_split(cell.attrs);
}

/// Nothing is kept of what comes later.
proof fn lemma_kept_styles(styles: Seq<Style>, live: Seq<bool>, k: int)
    requires
        0 <= k <= styles.len(),
        styles_distinct(styles),
    ensures
        forall|i: int, j: int|
            0 <= i < kept_styles(styles, live, k).len() && k <= j < styles.len()
                ==> #[trigger] kept_styles(styles, live, k)[i] != #[trigger] styles[j],
    decreases k,
{
    if k > 0 {
        lemma_kept_styles(styles, live, k - 1);
        let a = kept_styles(styles, live, k - 1);
        let b = kept_styles(styles, live, k);
        assert forall|i: int, j: int| 0 <= i < b.len() && k <= j < styles.len() implies #[trigger] b[i]
            != #[trigger] styles[j] by {
            if i < a.len() {
                assert(b[i] == a[i]);
                assert(a[i] != styles[j]);
            } else {
                assert(styles[k - 1] != styles[j]);
            }
        }
    }
}

proof fn lemma_kept_styles_len(styles: Seq<Style>, live: Seq<bool>, k: int)
    requires
        0 <= k <= styles.len(),
    ensures
        kept_styles(styles, live, k).len() <= k,
    decreases k,
{
    if k > 0 {
        lemma_kept_styles_len(styles, live, k - 1);
    }
}

proof fn lemma_kept_styles_prefix(styles: Seq<Style>, live: Seq<bool>, j: int, k: int)
    requires
        0 <= j <= k <= styles.len(),
    ensures
        kept_styles(styles, live, j).len() <= kept_styles(styles, live, k).len(),
        forall|i: int|
            0 <= i < kept_styles(styles, live, j).len() ==> #[trigger] kept_styles(styles, live, j)[i]
                == kept_styles(styles, live, k)[i],
    decreases k,
{
    if j < k {
        lemma_kept_styles_prefix(styles, live, j, k - 1);
    }
}

proof fn lemma_cited(cells: Seq<PackedCell>, k: int, i: int)
    requires
        0 <= i < k <= cells.len(),
    ensures
        styles_cited(cells, k, cells[i].style),
    decreases k,
{
    if i < k - 1 {
        lemma_cited(cells, k - 1, i);
    }
}

proof fn lemma_kept_style(styles: Seq<Style>, live: Seq<bool>, id: StyleId)
    requires
        styles.len() <= STYLE_LIMIT,
        1 <= id.0 <= styles.len(),
        style_alive(live, id.0 - 1),
    ensures
        style_of(
            kept_styles(styles, live, styles.len() as int),
            restyled(new_style_ids(styles, live), id),
        ) == style_of(styles, id),
{
    lemma_kept_styles_len(styles, live, id.0 as int);
    lemma_kept_styles_prefix(styles, live, id.0 as int, styles.len() as int);
    let part = kept_styles(styles, live, id.0 as int);
    assert(part[part.len() - 1] == styles[id.0 - 1]);
}

/// A sweep never changes how a cell draws, nor what the pen writes.
pub proof fn lemma_sweep_keeps_renditions(styles: Seq<Style>, cells: Seq<PackedCell>, pen: StyleId)
    requires
        styles.len() <= STYLE_LIMIT,
    ensures
        forall|i: int|
            0 <= i < cells.len() ==> style_of(
                swept_styles(styles, cells, pen),
                #[trigger] cells_restyled(cells, swept_ids(styles, cells, pen))[i].style,
            ) == style_of(styles, cells[i].style),
        style_of(swept_styles(styles, cells, pen), restyled(swept_ids(styles, cells, pen), pen))
            == style_of(styles, pen),
{
    let live = live_styles(styles, cells, pen);
    assert forall|i: int| 0 <= i < cells.len() implies style_of(
        swept_styles(styles, cells, pen),
        #[trigger] cells_restyled(cells, swept_ids(styles, cells, pen))[i].style,
    ) == style_of(styles, cells[i].style) by {
        let id = cells[i].style;
        if 1 <= id.0 <= styles.len() {
            lemma_cited(cells, cells.len() as int, i);
            assert(StyleId(id.0 as int as u16) == id);
            lemma_kept_style(styles, live, id);
        }
    }
    if 1 <= pen.0 <= styles.len() {
        assert(StyleId(pen.0 as int as u16) == pen);
        lemma_kept_style(styles, live, pen);
    }
}

} // verus!
