//! A cell's rendition attributes, packed into one `u16`.
use vstd::prelude::*;

verus! {

/// A cell's rendition attributes: the SGR styles, the two layout bits that mark a wide
/// character's halves, and the shape of the underline. One `u16`, so a cell stays small.
///
/// Soft wrap is deliberately not here: it describes a line, not a cell.
#[derive(Clone, Copy, PartialEq, Eq, Hash, Debug, Structural)]
pub struct Attrs(pub u16);

/// How an underline is drawn: `SGR 4:n`, where `4:0` is no underline at all, `4:1` the
/// plain one, and the rest are the shapes an editor uses to mean something.
#[derive(Clone, Copy, PartialEq, Eq, Hash, Debug, Structural)]
pub enum UnderlineStyle {
    Single,
    Double,
    Curly,
    Dotted,
    Dashed,
}

impl Default for UnderlineStyle {
    fn default() -> (r: UnderlineStyle)
        ensures
            r == UnderlineStyle::Single,
    {
        UnderlineStyle::Single
    }
}

/// Bits 9 to 11 hold how the underline is drawn, not whether it is.
pub const UNDERLINE_STYLE_SHIFT: u16 = 9;

/// The bits [`UNDERLINE_STYLE_SHIFT`] moves the style into.
pub const UNDERLINE_STYLE_MASK: u16 = 0x0e00;

/// Both of the bits that mark half of a wide character.
pub const WIDE_MASK: u16 = 0x0180;

/// Bold, italic, underline and strike.
pub const RUN_FLAGS: u16 = 0x002d;

/// Those, and the underline's shape.
pub const RUN_MASK: u16 = 0x0e2d;

/// The style a three-bit code stands for; an unknown code is the plain underline.
pub open spec fn style_of_code(code: u16) -> UnderlineStyle {
    if code == 1 {
        UnderlineStyle::Double
    } else if code == 2 {
        UnderlineStyle::Curly
    } else if code == 3 {
        UnderlineStyle::Dotted
    } else if code == 4 {
        UnderlineStyle::Dashed
    } else {
        UnderlineStyle::Single
    }
}

/// The three-bit code of a style.
pub open spec fn code_of_style(style: UnderlineStyle) -> u16 {
    match style {
        UnderlineStyle::Single => 0,
        UnderlineStyle::Double => 1,
        UnderlineStyle::Curly => 2,
        UnderlineStyle::Dotted => 3,
        UnderlineStyle::Dashed => 4,
    }
}

/// The name of a style, as it stands in a dump.
pub open spec fn style_name(style: UnderlineStyle) -> Seq<char> {
    match style {
        UnderlineStyle::Single => "Single"@,
        UnderlineStyle::Double => "Double"@,
        UnderlineStyle::Curly => "Curly"@,
        UnderlineStyle::Dotted => "Dotted"@,
        UnderlineStyle::Dashed => "Dashed"@,
    }
}

/// The name of flag bit `i`, as it stands in a dump.
pub open spec fn flag_name(i: int) -> Seq<char> {
    if i == 0 {
        "BOLD"@
    } else if i == 1 {
        "DIM"@
    } else if i == 2 {
        "ITALIC"@
    } else if i == 3 {
        "UNDERLINE"@
    } else if i == 4 {
        "REVERSE"@
    } else if i == 5 {
        "STRIKE"@
    } else if i == 6 {
        "HIDDEN"@
    } else if i == 7 {
        "WIDE_LEADER"@
    } else {
        "WIDE_SPACER"@
    }
}

/// Flag bit `i`.
pub open spec fn flag_bit(i: int) -> Attrs {
    if i == 0 {
        Attrs(1)
    } else if i == 1 {
        Attrs(2)
    } else if i == 2 {
        Attrs(4)
    } else if i == 3 {
        Attrs(8)
    } else if i == 4 {
        Attrs(16)
    } else if i == 5 {
        Attrs(32)
    } else if i == 6 {
        Attrs(64)
    } else if i == 7 {
        Attrs(128)
    } else {
        Attrs(256)
    }
}

/// The set flags among the first `k`, in bit order, joined by `|`; and whether none was.
pub open spec fn flag_list(a: Attrs, k: int) -> (Seq<char>, bool)
    decreases k,
{
    if k <= 0 {
        (Seq::empty(), true)
    } else {
        let (text, first) = flag_list(a, k - 1);
        if a.has(flag_bit(k - 1)) {
            ((if first {
                text
            } else {
                text + "|"@
            }) + flag_name(k - 1), false)
        } else {
            (text, first)
        }
    }
}

impl Attrs {
    /// Bold.
    #[verifier::allow_in_spec]
    pub fn bold() -> Attrs
        returns
            Attrs(1),
    {
        Attrs(1)
    }

    /// Dim.
    #[verifier::allow_in_spec]
    pub fn dim() -> Attrs
        returns
            Attrs(2),
    {
        Attrs(2)
    }

    /// Italic.
    #[verifier::allow_in_spec]
    pub fn italic() -> Attrs
        returns
            Attrs(4),
    {
        Attrs(4)
    }

    /// Underlined; the shape is [`Attrs::underline_style`].
    #[verifier::allow_in_spec]
    pub fn underline() -> Attrs
        returns
            Attrs(8),
    {
        Attrs(8)
    }

    /// Reverse video.
    #[verifier::allow_in_spec]
    pub fn reverse() -> Attrs
        returns
            Attrs(16),
    {
        Attrs(16)
    }

    /// Struck through.
    #[verifier::allow_in_spec]
    pub fn strike() -> Attrs
        returns
            Attrs(32),
    {
        Attrs(32)
    }

    /// Concealed: the cell keeps its rune but is drawn invisibly.
    #[verifier::allow_in_spec]
    pub fn hidden() -> Attrs
        returns
            Attrs(64),
    {
        Attrs(64)
    }

    /// The left half of a wide (two-column) character; carries the rune.
    #[verifier::allow_in_spec]
    pub fn wide_leader() -> Attrs
        returns
            Attrs(128),
    {
        Attrs(128)
    }

    /// The right half of a wide character; a placeholder the cursor skips.
    #[verifier::allow_in_spec]
    pub fn wide_spacer() -> Attrs
        returns
            Attrs(256),
    {
        Attrs(256)
    }

    /// All flags in bit order, with their names.
    pub fn all() -> (r: [(Attrs, &'static str); 9])
        ensures
            forall|i: int|
                0 <= i < 9 ==> (#[trigger] r@[i]).0 == flag_bit(i) && r@[i].1@ == flag_name(i),
    {
        [
            (Attrs::bold(), "BOLD"),
            (Attrs::dim(), "DIM"),
            (Attrs::italic(), "ITALIC"),
            (Attrs::underline(), "UNDERLINE"),
            (Attrs::reverse(), "REVERSE"),
            (Attrs::strike(), "STRIKE"),
            (Attrs::hidden(), "HIDDEN"),
            (Attrs::wide_leader(), "WIDE_LEADER"),
            (Attrs::wide_spacer(), "WIDE_SPACER"),
        ]
    }

    /// Whether every flag in `other` is set here.
    pub open spec fn has(self, other: Attrs) -> bool {
        self.0 & other.0 == other.0
    }

    /// These flags and those of `other`.
    pub open spec fn with(self, other: Attrs) -> Attrs {
        Attrs(self.0 | other.0)
    }

    /// These flags but those of `other`.
    pub open spec fn without(self, other: Attrs) -> Attrs {
        Attrs(self.0 & !other.0)
    }

    /// Neither half of a wide character.
    pub open spec fn narrow(self) -> bool {
        self.0 & WIDE_MASK == 0
    }

    /// No attributes at all. The style bits do not count: they say how an underline would
    /// be drawn, and without the underline there is none.
    pub open spec fn plain(self) -> bool {
        self.0 & !UNDERLINE_STYLE_MASK == 0
    }

    /// The shape of the underline.
    pub open spec fn style(self) -> UnderlineStyle {
        style_of_code((self.0 & UNDERLINE_STYLE_MASK) >> UNDERLINE_STYLE_SHIFT)
    }

    /// The same flags with the underline's shape replaced.
    pub open spec fn with_style(self, style: UnderlineStyle) -> Attrs {
        Attrs((self.0 & !UNDERLINE_STYLE_MASK) | (code_of_style(style) << UNDERLINE_STYLE_SHIFT))
    }

    /// How the underline on this cell is drawn: [`UnderlineStyle::Single`] for every cell
    /// that never asked for anything else.
    pub fn underline_style(self) -> (r: UnderlineStyle)
        ensures
            r == self.style(),
    {
        match (self.0 & UNDERLINE_STYLE_MASK) >> UNDERLINE_STYLE_SHIFT {
            1 => UnderlineStyle::Double,
            2 => UnderlineStyle::Curly,
            3 => UnderlineStyle::Dotted,
            4 => UnderlineStyle::Dashed,
            _ => UnderlineStyle::Single,
        }
    }

    /// Choose how the underline is drawn.
    pub fn set_underline_style(&mut self, style: UnderlineStyle)
        ensures
            *final(self) == old(self).with_style(style),
    {
        let bits: u16 = match style {
            UnderlineStyle::Single => 0,
            UnderlineStyle::Double => 1,
            UnderlineStyle::Curly => 2,
            UnderlineStyle::Dotted => 3,
            UnderlineStyle::Dashed => 4,
        };
        self.0 = (self.0 & !UNDERLINE_STYLE_MASK) | (bits << UNDERLINE_STYLE_SHIFT);
    }

    /// No flags at all.
    #[verifier::allow_in_spec]
    pub fn empty() -> Attrs
        returns
            Attrs(0),
    {
        Attrs(0)
    }

    /// Whether no attribute is set. The style bits do not count.
    pub fn is_empty(self) -> (r: bool)
        ensures
            r == self.plain(),
    {
        self.0 & !UNDERLINE_STYLE_MASK == 0
    }

    /// Whether every flag in `other` is set here.
    pub fn contains(self, other: Attrs) -> (r: bool)
        ensures
            r == self.has(other),
    {
        self.0 & other.0 == other.0
    }

    /// Set the flags of `other`.
    pub fn insert(&mut self, other: Attrs)
        ensures
            *final(self) == old(self).with(other),
    {
        self.0 = self.0 | other.0;
    }

    /// Clear the flags of `other`.
    pub fn remove(&mut self, other: Attrs)
        ensures
            *final(self) == old(self).without(other),
    {
        self.0 = self.0 & !other.0;
    }

    /// The bits that decide how a run of cells is drawn.
    pub open spec fn key(self) -> Attrs {
        if self.has(Attrs(8)) {
            Attrs(self.0 & RUN_MASK)
        } else {
            Attrs(self.0 & RUN_FLAGS)
        }
    }

    /// The bits that decide how a run of cells is drawn: the two that pick a face (bold,
    /// italic) and the two rules laid over it (underline, with its shape, and strike). The
    /// shape drops out where there is no underline to draw.
    pub fn run_key(self) -> (r: Attrs)
        ensures
            r == self.key(),
    {
        if self.contains(Attrs::underline()) {
            Attrs(self.0 & RUN_MASK)
        } else {
            Attrs(self.0 & RUN_FLAGS)
        }
    }

    /// Set or clear `other` by a boolean, the shape SGR wants.
    pub fn set(&mut self, other: Attrs, on: bool)
        ensures
            *final(self) == (if on {
                old(self).with(other)
            } else {
                old(self).without(other)
            }),
    {
        if on {
            self.insert(other);
        } else {
            self.remove(other);
        }
    }

    /// The attributes as a dump shows them: `Attrs(BOLD|ITALIC)`, or `Attrs(-)`, with the
    /// underline's shape after a colon where it is not the plain one.
    pub open spec fn text(self) -> Seq<char> {
        let body = if self.plain() {
            "-"@
        } else if self.has(Attrs(8)) && self.style() != UnderlineStyle::Single {
            flag_list(self, 9).0 + ":"@ + style_name(self.style())
        } else {
            flag_list(self, 9).0
        };
        "Attrs("@ + body + ")"@
    }

    /// The set flags spelled out, so a dump reads like the styling it represents instead
    /// of a mask.
    pub fn describe(self) -> (s: String)
        ensures
            s@ == self.text(),
    {
        let mut out = String::new();
        out.push_str("Attrs(");
        if self.is_empty() {
            out.push_str("-");
        } else {
            let all = Attrs::all();
            let mut first = true;
            let mut i: usize = 0;
            assert(out@ =~= "Attrs("@ + flag_list(self, 0).0);
            while i < 9
                invariant
                    i <= 9,
                    forall|j: int|
                        0 <= j < 9 ==> (#[trigger] all@[j]).0 == flag_bit(j) && all@[j].1@
                            == flag_name(j),
                    out@ == "Attrs("@ + flag_list(self, i as int).0,
                    first == flag_list(self, i as int).1,
                decreases 9 - i,
            {
                let (flag, name) = all[i];
                if self.contains(flag) {
                    if !first {
                        out.push_str("|");
                    }
                    out.push_str(name);
                    first = false;
                }
                i = i + 1;
                assert(out@ =~= "Attrs("@ + flag_list(self, i as int).0);
            }
            if self.contains(Attrs::underline()) && self.underline_style()
                != UnderlineStyle::Single {
                out.push_str(":");
                match self.underline_style() {
                    UnderlineStyle::Single => out.push_str("Single"),
                    UnderlineStyle::Double => out.push_str("Double"),
                    UnderlineStyle::Curly => out.push_str("Curly"),
                    UnderlineStyle::Dotted => out.push_str("Dotted"),
                    UnderlineStyle::Dashed => out.push_str("Dashed"),
                }
            }
        }
        out.push_str(")");
        assert(out@ =~= self.text());
        out
    }
}

impl Default for Attrs {
    fn default() -> (r: Attrs)
        ensures
            r == Attrs(0),
    {
        Attrs(0)
    }
}

/// The flags are distinct single bits, none of them zero and none inside the style field.
pub proof fn lemma_flags_are_distinct_bits(i: int, j: int)
    requires
        0 <= i < 9,
        0 <= j < 9,
        i != j,
    ensures
        flag_bit(i).0 != 0,
        flag_bit(i).0 & flag_bit(j).0 == 0,
        flag_bit(i).0 & UNDERLINE_STYLE_MASK == 0,
{
    let a = flag_bit(i).0;
    let b = flag_bit(j).0;
    assert(a & b == 0 && a & 0x0e00 == 0) by (bit_vector)
        requires
            a == 1 || a == 2 || a == 4 || a == 8 || a == 16 || a == 32 || a == 64 || a == 128 || a
                == 256,
            b == 1 || b == 2 || b == 4 || b == 8 || b == 16 || b == 32 || b == 64 || b == 128 || b
                == 256,
            a != b,
    ;
}

/// What was inserted is contained, what was removed is not, and neither touches a flag
/// that shares no bit with it.
pub proof fn lemma_insert_remove(a: Attrs, flag: Attrs, other: Attrs)
    ensures
        a.with(flag).has(flag),
        flag.0 != 0 ==> !a.without(flag).has(flag),
        flag.0 & other.0 == 0 ==> a.with(flag).has(other) == a.has(other),
        flag.0 & other.0 == 0 ==> a.without(flag).has(other) == a.has(other),
        a.with(flag).without(flag) == a.without(flag),
        flag.0 & UNDERLINE_STYLE_MASK == 0 ==> a.with(flag).style() == a.style(),
{
    let x = a.0;
    let f = flag.0;
    let o = other.0;
    assert((x | f) & f == f) by (bit_vector);
    assert(f != 0 ==> (x & !f) & f != f) by (bit_vector);
    assert(f & o == 0 ==> (((x | f) & o == o) == (x & o == o)) && (((x & !f) & o == o) == (x & o
        == o))) by (bit_vector);
    assert((x | f) & !f == x & !f) by (bit_vector);
    assert(f & 0x0e00 == 0 ==> (x | f) & 0x0e00 == x & 0x0e00) by (bit_vector);
}

/// A style that was set is the style read back, and setting one leaves every flag alone.
pub proof fn lemma_style_reads_back(a: Attrs, style: UnderlineStyle)
    ensures
        a.with_style(style).style() == style,
        a.with_style(style).plain() == a.plain(),
        forall|i: int| 0 <= i < 9 ==> a.with_style(style).has(flag_bit(i)) == #[trigger] a.has(
            flag_bit(i),
        ),
{
    let x = a.0;
    let c = code_of_style(style);
    assert((((x & !0x0e00u16) | (c << 9u16)) & 0x0e00) >> 9u16 == c && ((x & !0x0e00u16) | (c
        << 9u16)) & !0x0e00u16 == x & !0x0e00u16) by (bit_vector)
        requires
            c <= 4,
    ;
    assert forall|i: int| 0 <= i < 9 implies a.with_style(style).has(flag_bit(i)) == #[trigger] a.has(
        flag_bit(i),
    ) by {
        let f = flag_bit(i).0;
        let y = a.with_style(style).0;
        assert((y & f == f) == (x & f == f)) by (bit_vector)
            requires
                y & !0x0e00u16 == x & !0x0e00u16,
                f == 1 || f == 2 || f == 4 || f == 8 || f == 16 || f == 32 || f == 64 || f == 128
                    || f == 256,
        ;
    }
}

/// How the wide bits behave under the operations the grid performs on them.
pub proof fn lemma_wide_bits(a: Attrs)
    ensures
        a.narrow() <==> !a.has(Attrs(128)) && !a.has(Attrs(256)),
        a.narrow() ==> a.with(Attrs(128)).has(Attrs(128)) && !a.with(Attrs(128)).has(Attrs(256)),
        a.narrow() ==> a.with(Attrs(256)).has(Attrs(256)) && !a.with(Attrs(256)).has(Attrs(128)),
        a.has(Attrs(128)) && !a.has(Attrs(256)) ==> a.without(Attrs(128)).narrow(),
        Attrs(0).narrow(),
        a.plain() ==> a.narrow(),
{
    let x = a.0;
    assert((x & 0x0180 == 0) <==> (x & 128 != 128 && x & 256 != 256)) by (bit_vector);
    assert(x & 0x0180 == 0 ==> ((x | 128) & 128 == 128 && (x | 128) & 256 != 256 && (x | 256)
        & 256 == 256 && (x | 256) & 128 != 128)) by (bit_vector);
    assert(x & 128 == 128 && x & 256 != 256 ==> (x & !128u16) & 0x0180 == 0) by (bit_vector);
    assert(0u16 & 0x0180 == 0) by (bit_vector);
    assert(x & !0x0e00u16 == 0 ==> x & 0x0180 == 0) by (bit_vector);
}

/// Setting or clearing a flag that is not a wide bit, or the underline's shape, leaves
/// narrow attributes narrow.
pub proof fn lemma_narrow_kept(a: Attrs, flag: Attrs, style: UnderlineStyle)
    requires
        a.narrow(),
        flag.0 & WIDE_MASK == 0,
    ensures
        a.with(flag).narrow(),
        a.without(flag).narrow(),
        a.with_style(style).narrow(),
{
    let x = a.0;
    let f = flag.0;
    let c = code_of_style(style);
    assert((x | f) & 0x0180 == 0 && (x & !f) & 0x0180 == 0) by (bit_vector)
        requires
            x & 0x0180 == 0,
            f & 0x0180 == 0,
    ;
    assert(((x & !0x0e00u16) | (c << 9u16)) & 0x0180 == 0) by (bit_vector)
        requires
            x & 0x0180 == 0,
            c <= 4,
    ;
}

impl core::ops::BitOr for Attrs {
    type Output = Attrs;

    /// The union of two sets of flags.
    fn bitor(self, rhs: Attrs) -> (r: Attrs) {
        Attrs(self.0 | rhs.0)
    }
}

impl vstd::std_specs::ops::BitOrSpecImpl for Attrs {
    open spec fn obeys_bitor_spec() -> bool {
        true
    }

    open spec fn bitor_req(self, rhs: Attrs) -> bool {
        true
    }

    open spec fn bitor_spec(self, rhs: Attrs) -> Attrs {
        self.with(rhs)
    }
}

/// The wide bits come off and go back on.
pub proof fn lemma_wide_split(a: Attrs)
    ensures
        a.has(Attrs(128)) && !a.has(Attrs(256)) ==> a.without(Attrs(0x0180)).with(Attrs(128)) == a,
        a.has(Attrs(256)) && !a.has(Attrs(128)) ==> a.without(Attrs(0x0180)).with(Attrs(256)) == a,
        !a.has(Attrs(256)) && !a.has(Attrs(128)) ==> a.without(Attrs(0x0180)) == a,
{
    let x = a.0;
    assert(x & 128 == 128 && x & 256 != 256 ==> (x & !0x0180u16) | 128 == x) by (bit_vector);
    assert(x & 256 == 256 && x & 128 != 128 ==> (x & !0x0180u16) | 256 == x) by (bit_vector);
    assert(x & 256 != 256 && x & 128 != 128 ==> x & !0x0180u16 == x) by (bit_vector);
}

/// Attributes of one key draw the same: the same face, and the same rules over it.
pub proof fn lemma_run_key(a: Attrs)
    ensures
        a.key().has(Attrs(1)) == a.has(Attrs(1)),
        a.key().has(Attrs(4)) == a.has(Attrs(4)),
        a.key().has(Attrs(8)) == a.has(Attrs(8)),
        a.key().has(Attrs(32)) == a.has(Attrs(32)),
        a.has(Attrs(8)) ==> a.key().style() == a.style(),
{
    let x = a.0;
    assert(forall|m: u16|
        m == 0x0e2d || m == 0x2d ==> #[trigger] (x & m) & 1 == x & 1 && (x & m) & 4 == x & 4 && (x
            & m) & 8 == x & 8 && (x & m) & 32 == x & 32) by (bit_vector);
    assert((x & 0x0e2d) & 0x0e00 == x & 0x0e00) by (bit_vector);
}

} // verus!
