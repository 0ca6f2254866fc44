//! Colours: the ones a cell cites, the palette they resolve against, and the X11 spellings
//! a program sets and queries the palette with.
use vstd::prelude::*;

verus! {

/// A colour as a screen shows it, eight bits a channel.
#[derive(Clone, Copy, PartialEq, Eq, Hash, Debug, Structural)]
pub struct Rgb {
    pub r: u8,
    pub g: u8,
    pub b: u8,
}

impl Rgb {
    /// The colour of three channels.
    #[verifier::allow_in_spec]
    pub fn new(r: u8, g: u8, b: u8) -> Rgb
        returns
            (Rgb { r, g, b }),
    {
        Rgb { r, g, b }
    }
}

/// A colour as a cell cites it: the default of its ground, an entry of the palette, or a
/// colour spelled out.
#[derive(Clone, Copy, PartialEq, Eq, Hash, Debug, Structural)]
pub enum Color {
    Default,
    Ansi(u8),
    Indexed(u8),
    Rgb(u8, u8, u8),
}

/// Which side of a cell a colour is for.
#[derive(Clone, Copy, PartialEq, Eq, Hash, Debug, Structural)]
pub enum Ground {
    Foreground,
    Background,
}

impl Color {
    /// The colour in force under `theme`.
    pub open spec fn shown(self, theme: ThemeView, ground: Ground) -> Rgb {
        match self {
            Color::Default => match ground {
                Ground::Foreground => theme.fg,
                Ground::Background => theme.bg,
            },
            Color::Ansi(i) => theme.palette[i as int],
            Color::Indexed(i) => theme.palette[i as int],
            Color::Rgb(r, g, b) => Rgb { r, g, b },
        }
    }

    /// What this colour is under `theme`.
    pub fn resolve(self, theme: &Theme, ground: Ground) -> (r: Rgb)
        ensures
            r == self.shown(theme@, ground),
    {
        match self {
            Color::Default => match ground {
                Ground::Foreground => theme.fg,
                Ground::Background => theme.bg,
            },
            Color::Ansi(i) => theme.palette[i as usize],
            Color::Indexed(i) => theme.palette[i as usize],
            Color::Rgb(r, g, b) => Rgb { r, g, b },
        }
    }

    /// The colour as a dump shows it: `Default`, `Ansi(1)`, `Rgb(1, 2, 3)`.
    pub open spec fn text(self) -> Seq<char> {
        match self {
            Color::Default => "Default"@,
            Color::Ansi(i) => "Ansi("@ + crate::text::decimal_text(i as nat) + ")"@,
            Color::Indexed(i) => "Indexed("@ + crate::text::decimal_text(i as nat) + ")"@,
            Color::Rgb(r, g, b) => "Rgb("@ + crate::text::decimal_text(r as nat) + ", "@
                + crate::text::decimal_text(g as nat) + ", "@ + crate::text::decimal_text(b as nat)
                + ")"@,
        }
    }

    /// Append the colour as a dump shows it.
    pub fn describe(self, out: &mut String)
        ensures
            final(out)@ == old(out)@ + self.text(),
    {
        match self {
            Color::Default => out.push_str("Default"),
            Color::Ansi(i) => {
                out.push_str("Ansi(");
                crate::text::push_number(out, i as usize);
                out.push_str(")");
            },
            Color::Indexed(i) => {
                out.push_str("Indexed(");
                crate::text::push_number(out, i as usize);
                out.push_str(")");
            },
            Color::Rgb(r, g, b) => {
                out.push_str("Rgb(");
                crate::text::push_number(out, r as usize);
                out.push_str(", ");
                crate::text::push_number(out, g as usize);
                out.push_str(", ");
                crate::text::push_number(out, b as usize);
                out.push_str(")");
            },
        }
        assert(out@ =~= old(out)@ + self.text());
    }
}

/// The palette: the three named colours and the 256 indexed ones.
#[derive(Clone, Copy, PartialEq, Eq, Debug)]
pub struct Theme {
    pub fg: Rgb,
    pub bg: Rgb,
    pub cursor: Rgb,
    pub palette: [Rgb; 256],
}

/// A palette as a value.
#[verifier::ext_equal]
pub struct ThemeView {
    pub fg: Rgb,
    pub bg: Rgb,
    pub cursor: Rgb,
    pub palette: Seq<Rgb>,
}

impl View for Theme {
    type V = ThemeView;

    open spec fn view(&self) -> ThemeView {
        ThemeView { fg: self.fg, bg: self.bg, cursor: self.cursor, palette: self.palette@ }
    }
}

/// One of the sixteen ANSI colours, in xterm's default shades.
pub open spec fn ansi_shade(i: int) -> Rgb {
    if i == 0 {
        Rgb { r: 0, g: 0, b: 0 }
    } else if i == 1 {
        Rgb { r: 205, g: 0, b: 0 }
    } else if i == 2 {
        Rgb { r: 0, g: 205, b: 0 }
    } else if i == 3 {
        Rgb { r: 205, g: 205, b: 0 }
    } else if i == 4 {
        Rgb { r: 0, g: 0, b: 238 }
    } else if i == 5 {
        Rgb { r: 205, g: 0, b: 205 }
    } else if i == 6 {
        Rgb { r: 0, g: 205, b: 205 }
    } else if i == 7 {
        Rgb { r: 229, g: 229, b: 229 }
    } else if i == 8 {
        Rgb { r: 127, g: 127, b: 127 }
    } else if i == 9 {
        Rgb { r: 255, g: 0, b: 0 }
    } else if i == 10 {
        Rgb { r: 0, g: 255, b: 0 }
    } else if i == 11 {
        Rgb { r: 255, g: 255, b: 0 }
    } else if i == 12 {
        Rgb { r: 92, g: 92, b: 255 }
    } else if i == 13 {
        Rgb { r: 255, g: 0, b: 255 }
    } else if i == 14 {
        Rgb { r: 0, g: 255, b: 255 }
    } else {
        Rgb { r: 255, g: 255, b: 255 }
    }
}

/// One step of the 6x6x6 colour cube.
pub open spec fn cube_level(i: int) -> u8 {
    if i == 0 {
        0
    } else {
        (55 + 40 * i) as u8
    }
}

/// The default of palette entry `i`: the ANSI colours, the colour cube, the grey ramp.
pub open spec fn default_shade(i: int) -> Rgb {
    if i < 16 {
        ansi_shade(i)
    } else if i < 232 {
        Rgb {
            r: cube_level((i - 16) / 36),
            g: cube_level((i - 16) / 6 % 6),
            b: cube_level((i - 16) % 6),
        }
    } else {
        Rgb {
            r: (8 + 10 * (i - 232)) as u8,
            g: (8 + 10 * (i - 232)) as u8,
            b: (8 + 10 * (i - 232)) as u8,
        }
    }
}

/// The palette a terminal opens with.
pub open spec fn default_theme() -> ThemeView {
    ThemeView {
        fg: Rgb { r: 255, g: 255, b: 255 },
        bg: Rgb { r: 0x28, g: 0x2c, b: 0x34 },
        cursor: Rgb { r: 255, g: 0, b: 0x78 },
        palette: Seq::new(256, |i: int| default_shade(i)),
    }
}

fn level(i: u8) -> (r: u8)
    requires
        i < 6,
    ensures
        r == cube_level(i as int),
{
    if i == 0 {
        0
    } else {
        55 + 40 * i
    }
}

fn shade(i: u8) -> (r: Rgb)
    ensures
        r == default_shade(i as int),
{
    if i < 16 {
        match i {
            0 => Rgb { r: 0, g: 0, b: 0 },
            1 => Rgb { r: 205, g: 0, b: 0 },
            2 => Rgb { r: 0, g: 205, b: 0 },
            3 => Rgb { r: 205, g: 205, b: 0 },
            4 => Rgb { r: 0, g: 0, b: 238 },
            5 => Rgb { r: 205, g: 0, b: 205 },
            6 => Rgb { r: 0, g: 205, b: 205 },
            7 => Rgb { r: 229, g: 229, b: 229 },
            8 => Rgb { r: 127, g: 127, b: 127 },
            9 => Rgb { r: 255, g: 0, b: 0 },
            10 => Rgb { r: 0, g: 255, b: 0 },
            11 => Rgb { r: 255, g: 255, b: 0 },
            12 => Rgb { r: 92, g: 92, b: 255 },
            13 => Rgb { r: 255, g: 0, b: 255 },
            14 => Rgb { r: 0, g: 255, b: 255 },
            _ => Rgb { r: 255, g: 255, b: 255 },
        }
    } else if i < 232 {
        let n: u8 = i - 16;
        Rgb { r: level(n / 36), g: level(n / 6 % 6), b: level(n % 6) }
    } else {
        let v: u8 = 8 + 10 * (i - 232);
        Rgb { r: v, g: v, b: v }
    }
}

impl Theme {
    /// The colour of palette entry `index`.
    pub fn indexed(&self, index: u8) -> (r: Rgb)
        ensures
            r == self@.palette[index as int],
    {
        self.palette[index as usize]
    }

    /// Replace palette entry `index`.
    pub fn set_indexed(&mut self, index: u8, color: Rgb)
        ensures
            final(self)@ == (ThemeView {
                palette: old(self)@.palette.update(index as int, color),
                ..old(self)@
            }),
    {
        self.palette[index as usize] = color;
    }

    /// Put palette entry `index` back to its default.
    pub fn reset_indexed(&mut self, index: u8)
        ensures
            final(self)@ == (ThemeView {
                palette: old(self)@.palette.update(index as int, default_shade(index as int)),
                ..old(self)@
            }),
    {
        self.palette[index as usize] = shade(index);
    }

    /// Put the whole indexed palette back, leaving the three named colours alone.
    pub fn reset_palette(&mut self)
        ensures
            final(self)@ == (ThemeView { palette: default_theme().palette, ..old(self)@ }),
    {
        let mut i: usize = 0;
        while i < 256
            invariant
                i <= 256,
                self.fg == old(self).fg,
                self.bg == old(self).bg,
                self.cursor == old(self).cursor,
                forall|j: int| 0 <= j < i ==> #[trigger] self.palette@[j] == default_shade(j),
            decreases 256 - i,
        {
            self.palette[i] = shade(i as u8);
            i = i + 1;
        }
        assert(self@.palette =~= default_theme().palette);
    }
}

impl Default for Theme {
    fn default() -> (r: Theme)
        ensures
            r@ == default_theme(),
    {
        let mut theme = Theme {
            fg: Rgb { r: 255, g: 255, b: 255 },
            bg: Rgb { r: 0x28, g: 0x2c, b: 0x34 },
            cursor: Rgb { r: 255, g: 0, b: 0x78 },
            palette: [Rgb { r: 0, g: 0, b: 0 };256],
        };
        theme.reset_palette();
        theme
    }
}

/// The value of a hexadecimal digit, in either case.
pub open spec fn hex_value(b: u8) -> Option<u8> {
    if 48 <= b <= 57 {
        Some((b - 48) as u8)
    } else if 97 <= b <= 102 {
        Some((b - 87) as u8)
    } else if 65 <= b <= 70 {
        Some((b - 55) as u8)
    } else {
        None
    }
}

/// The value of a hexadecimal digit, `None` for any other byte.
pub fn hex_digit(b: u8) -> (r: Option<u8>)
    ensures
        r == hex_value(b),
{
    if 48 <= b && b <= 57 {
        Some(b - 48)
    } else if 97 <= b && b <= 102 {
        Some(b - 87)
    } else if 65 <= b && b <= 70 {
        Some(b - 55)
    } else {
        None
    }
}

/// The lower-case hexadecimal digit of a value below sixteen.
pub open spec fn hex_char(v: int) -> u8 {
    if v < 10 {
        (48 + v) as u8
    } else {
        (87 + v) as u8
    }
}

/// The lower-case hexadecimal digit of `v`.
pub fn hex_byte(v: u8) -> (r: u8)
    requires
        v < 16,
    ensures
        r == hex_char(v as int),
{
    if v < 10 {
        48 + v
    } else {
        87 + v
    }
}

/// Every byte is a hexadecimal digit.
pub open spec fn all_hex(s: Seq<u8>) -> bool {
    forall|i: int| 0 <= i < s.len() ==> hex_value(#[trigger] s[i]) is Some
}

/// One channel of a colour, written with one to four hexadecimal digits: the two leading
/// digits, or the one digit doubled.
pub open spec fn channel_value(s: Seq<u8>) -> Option<u8> {
    if 1 <= s.len() <= 4 && all_hex(s) {
        if s.len() == 1 {
            Some((hex_value(s[0])->0 * 17) as u8)
        } else {
            Some((hex_value(s[0])->0 * 16 + hex_value(s[1])->0) as u8)
        }
    } else {
        None
    }
}

/// The colour three channels spell, if all three do.
pub open spec fn channels_value(r: Seq<u8>, g: Seq<u8>, b: Seq<u8>) -> Option<Rgb> {
    match (channel_value(r), channel_value(g), channel_value(b)) {
        (Some(r), Some(g), Some(b)) => Some(Rgb { r, g, b }),
        _ => None,
    }
}

/// A colour in X11's spelling: `#rgb` up to `#rrrrggggbbbb`, or `rgb:r/g/b` with one to
/// four digits a channel.
pub open spec fn x11_value(s: Seq<u8>) -> Option<Rgb> {
    if s.len() >= 1 && s[0] == 35 {
        let n = (s.len() - 1) / 3;
        if s.len() == 1 + 3 * n {
            channels_value(
                s.subrange(1, 1 + n),
                s.subrange(1 + n, 1 + 2 * n),
                s.subrange(1 + 2 * n, 1 + 3 * n),
            )
        } else {
            None
        }
    } else if s.len() >= 4 && s[0] == 114 && s[1] == 103 && s[2] == 98 && s[3] == 58 {
        let parts = crate::fields::fields(s.skip(4), 47);
        if parts.len() == 3 {
            channels_value(parts[0], parts[1], parts[2])
        } else {
            None
        }
    } else {
        None
    }
}

fn channel(s: &[u8]) -> (r: Option<u8>)
    ensures
        r == channel_value(s@),
{
    if s.len() == 0 || s.len() > 4 {
        return None;
    }
    let mut i: usize = 0;
    while i < s.len()
        invariant
            i <= s.len(),
            forall|j: int| 0 <= j < i ==> hex_value(#[trigger] s@[j]) is Some,
        decreases s.len() - i,
    {
        if hex_digit(s[i]).is_none() {
            assert(hex_value(s@[i as int]) is None);
            return None;
        }
        i = i + 1;
    }
    assert(hex_value(s@[0]) is Some);
    match hex_digit(s[0]) {
        Some(hi) => {
            if s.len() == 1 {
                Some(hi * 17)
            } else {
                assert(hex_value(s@[1]) is Some);
                match hex_digit(s[1]) {
                    Some(lo) => Some(hi * 16 + lo),
                    None => None,
                }
            }
        },
        None => None,
    }
}

fn channels(r: &[u8], g: &[u8], b: &[u8]) -> (c: Option<Rgb>)
    ensures
        c == channels_value(r@, g@, b@),
{
    match (channel(r), channel(g), channel(b)) {
        (Some(r), Some(g), Some(b)) => Some(Rgb { r, g, b }),
        _ => None,
    }
}

/// Read a colour in X11's spelling. `None` for anything else, which is then ignored
/// rather than guessed at.
pub fn parse_x11_color(s: &[u8]) -> (c: Option<Rgb>)
    ensures
        c == x11_value(s@),
{
    if s.len() >= 1 && s[0] == 35 {
        let n: usize = (s.len() - 1) / 3;
        if s.len() == 1 + 3 * n {
            channels(
                vstd::slice::slice_subrange(s, 1, 1 + n),
                vstd::slice::slice_subrange(s, 1 + n, 1 + 2 * n),
                vstd::slice::slice_subrange(s, 1 + 2 * n, 1 + 3 * n),
            )
        } else {
            None
        }
    } else if s.len() >= 4 && s[0] == 114 && s[1] == 103 && s[2] == 98 && s[3] == 58 {
        let rest = vstd::slice::slice_subrange(s, 4, s.len());
        assert(rest@ =~= s@.skip(4));
        let parts = crate::fields::split_fields(rest, 47);
        if parts.len() == 3 {
            channels(parts[0].as_slice(), parts[1].as_slice(), parts[2].as_slice())
        } else {
            None
        }
    } else {
        None
    }
}

/// One channel as X11 spells it with sixteen bits: the byte's two digits, twice.
pub open spec fn channel_text(v: u8) -> Seq<u8> {
    seq![
        hex_char(v as int / 16),
        hex_char(v as int % 16),
        hex_char(v as int / 16),
        hex_char(v as int % 16),
    ]
}

/// A colour as xterm reports it: `rgb:rrrr/gggg/bbbb`.
pub open spec fn x11_text(c: Rgb) -> Seq<u8> {
    seq![114u8, 103, 98, 58] + channel_text(c.r) + seq![47u8] + channel_text(c.g) + seq![47u8]
        + channel_text(c.b)
}

fn write_channel(v: u8, out: &mut Vec<u8>)
    ensures
        final(out)@ == old(out)@ + channel_text(v),
{
    let hi = hex_byte(v / 16);
    let lo = hex_byte(v % 16);
    out.push(hi);
    out.push(lo);
    out.push(hi);
    out.push(lo);
    assert(out@ =~= old(out)@ + channel_text(v));
}

/// Append a colour as xterm reports it.
pub fn write_x11_color(c: Rgb, out: &mut Vec<u8>)
    ensures
        final(out)@ == old(out)@ + x11_text(c),
{
    out.push(114);
    out.push(103);
    out.push(98);
    out.push(58);
    write_channel(c.r, out);
    out.push(47);
    write_channel(c.g, out);
    out.push(47);
    write_channel(c.b, out);
    assert(out@ =~= old(out)@ + x11_text(c));
}

pub proof fn lemma_hex_char(v: int)
    requires
        0 <= v < 16,
    ensures
        hex_value(hex_char(v)) == Some(v as u8),
        hex_char(v) != 47,
{
}

/// A colour that was written is the colour read back.
pub proof fn lemma_x11_round_trip(c: Rgb)
    ensures
        x11_value(x11_text(c)) == Some(c),
{
    let s = x11_text(c);
    let rest = s.skip(4);
    lemma_hex_char(c.r as int / 16);
    lemma_hex_char(c.r as int % 16);
    lemma_hex_char(c.g as int / 16);
    lemma_hex_char(c.g as int % 16);
    lemma_hex_char(c.b as int / 16);
    lemma_hex_char(c.b as int % 16);
    let r = channel_text(c.r);
    let g = channel_text(c.g);
    let b = channel_text(c.b);
    assert(rest =~= r + seq![47u8] + (g + seq![47u8] + b));
    crate::fields::lemma_fields_split(r, g + seq![47u8] + b, 47);
    crate::fields::lemma_fields_split(g, b, 47);
    crate::fields::lemma_fields_single(b, 47);
    let parts = crate::fields::fields(rest, 47);
    assert(parts =~= seq![r, g, b]);
}

} // verus!
