//! What the small encodings mean and refuse, the default colours, the widths of characters,
//! and where one user-perceived character ends.
use vstd::prelude::*;
use crate::cell::{Charset, Charsets};
use crate::codec::{
    ascii_space, base64_decoded, byte_field, hex_decoded, hex_pair, is_number,
    number_of, packed, percent_decoded, replies, reply_end, reply_starts, sextet, signed_value,
};
use crate::color::{
    all_hex, channel_value, default_shade, default_theme, hex_value, x11_value, Color, Ground, Rgb,
    ThemeView,
};
use crate::dispatch::{line_drawing, mapped};
use crate::grapheme::{class_of, BreakState};
use crate::text::{all_digits, decimal, lemma_decimal_reads_back};
use crate::width::{cluster_columns, columns, widest};

verus! {

// ---- percent escapes, hexadecimal, base64, numbers ----------------------------------------------

/// Percent escapes: a byte that starts none stands for itself, and an escape of two
/// hexadecimal digits for the byte they spell; the rest is read on its own.
pub proof fn lemma_percent(first: u8, hi: u8, lo: u8, rest: Seq<u8>)
    requires
        first != 37,
    ensures
        percent_decoded(Seq::empty()) == Seq::<u8>::empty(),
        percent_decoded(seq![first] + rest) == seq![first] + percent_decoded(rest),
        hex_value(hi) is Some && hex_value(lo) is Some ==> percent_decoded(
            seq![37u8, hi, lo] + rest,
        ) == seq![(hex_value(hi)->0 * 16 + hex_value(lo)->0) as u8] + percent_decoded(rest),
        hex_value(hi) is None ==> percent_decoded(seq![37u8, hi] + rest) == seq![37u8]
            + percent_decoded(seq![hi] + rest),
{
    let a = seq![first] + rest;
    assert(a[0] == first && a.skip(1) =~= rest);
    let b = seq![37u8, hi, lo] + rest;
    assert(b[0] == 37 && b[1] == hi && b[2] == lo && b.skip(3) =~= rest);
    let c = seq![37u8, hi] + rest;
    assert(c[0] == 37 && c[1] == hi && c.skip(1) =~= seq![hi] + rest);
}

/// Hexadecimal digits of either case carry the value they spell, and no other byte does.
pub proof fn lemma_hex_digits(v: u8, other: u8)
    requires
        v < 16,
        !(48 <= other <= 57) && !(65 <= other <= 70) && !(97 <= other <= 102),
    ensures
        v < 10 ==> hex_value((48 + v) as u8) == Some(v),
        v >= 10 ==> hex_value((55 + v) as u8) == Some(v) && hex_value((87 + v) as u8) == Some(v),
        hex_value(other) is None,
{
}

/// Hexadecimal text spells bytes exactly where it is made of whole pairs of digits, at least
/// one; each pair is one byte, the high digit first.
pub proof fn lemma_hex_text(s: Seq<u8>, i: int)
    ensures
        hex_decoded(s) is Some <==> s.len() > 0 && s.len() % 2 == 0 && all_hex(s),
        hex_decoded(s) matches Some(b) ==> b.len() * 2 == s.len() && (0 <= i < b.len() ==> b[i]
            == hex_value(s[2 * i])->0 * 16 + hex_value(s[2 * i + 1])->0),
{
    if hex_decoded(s) is Some && 0 <= i < s.len() / 2 {
        assert(hex_value(s[2 * i]) is Some && hex_value(s[2 * i + 1]) is Some);
        assert(hex_decoded(s)->0[i] == hex_pair(s, 2 * i)->0);
    }
}

/// A byte that is no digit, no padding mark and no white space makes a text no base64; a
/// padding mark may not stand before a digit; and white space anywhere changes nothing.
pub proof fn lemma_base64_refuses(s: Seq<u8>, i: int, j: int, space: u8)
    ensures
        0 <= i < packed(s).len() && sextet(packed(s)[i]) is None ==> base64_decoded(s) is None,
        0 <= i < j < packed(s).len() && packed(s)[i] == 61 && packed(s)[j] != 61
            ==> base64_decoded(s) is None,
        packed(s).len() % 4 == 1 ==> base64_decoded(s) is None,
        ascii_space(space) ==> base64_decoded(s.push(space)) == base64_decoded(s),
        forall|b: u8|
            #![trigger sextet(b)]
            sextet(b) is Some <==> (65 <= b <= 90 || 97 <= b <= 122 || 48 <= b <= 57 || b == 43 || b
                == 47 || b == 61),
{
    assert(s.push(space).drop_last() =~= s);
}

/// A palette index is a plain decimal number up to 255, of no more than three digits.
pub proof fn lemma_byte_fields(n: nat, s: Seq<u8>)
    ensures
        n <= 255 ==> byte_field(decimal(n)) == Some(n as u8),
        n > 255 ==> byte_field(decimal(n)) is None,
        s.len() == 0 || s.len() > 3 || !all_digits(s) ==> byte_field(s) is None,
{
    lemma_decimal_reads_back(n);
    if n <= 255 {
        lemma_short(n);
    }
}

proof fn lemma_short(n: nat)
    requires
        n <= 999,
    ensures
        1 <= decimal(n).len() <= 3,
{
    reveal_with_fuel(decimal, 4);
}

/// A signed number: a sign or none, then at least one digit and nothing else, where the value
/// fits thirty-two bits.
pub proof fn lemma_signed_numbers(d: Seq<char>)
    requires
        is_number(d),
    ensures
        ({
            let n = number_of(d);
            &&& n >= 0
            &&& n <= i32::MAX ==> signed_value(d) == Some(n) && signed_value(seq!['+'] + d) == Some(
                n,
            ) && signed_value(seq!['-'] + d) == Some(-n)
            &&& n > i32::MAX ==> signed_value(d) is None && signed_value(seq!['+'] + d) is None
            &&& n == i32::MAX + 1 ==> signed_value(seq!['-'] + d) == Some(-n)
            &&& n > i32::MAX + 1 ==> signed_value(seq!['-'] + d) is None
            &&& signed_value(Seq::empty()) is None
            &&& d.len() == 1 ==> n == d[0] as u32 - 48
            &&& d.len() > 1 ==> n == number_of(d.drop_last()) * 10 + (d.last() as u32 - 48)
        }),
{
    lemma_number(d);
    let p = seq!['+'] + d;
    let m = seq!['-'] + d;
    assert(p[0] == '+' && p.skip(1) =~= d);
    assert(m[0] == '-' && m.skip(1) =~= d);
    assert(48 <= d[0] as u32 <= 57);
    assert(d.len() == 1 ==> number_of(d.drop_last()) == 0);
}

proof fn lemma_number(d: Seq<char>)
    requires
        forall|i: int| 0 <= i < d.len() ==> 48 <= #[trigger] d[i] as u32 <= 57,
    ensures
        number_of(d) >= 0,
    decreases d.len(),
{
    if d.len() > 0 {
        let init = d.drop_last();
        assert forall|i: int| 0 <= i < init.len() implies 48 <= #[trigger] init[i] as u32 <= 57 by {
            assert(init[i] == d[i]);
        }
        lemma_number(init);
        assert(48 <= d[d.len() - 1] as u32 <= 57);
    }
}

/// Replies split off a buffer are the buffer: put back together they are what was queued, and
/// none of them is empty.
pub proof fn lemma_replies_join(s: Seq<u8>)
    ensures
        s.len() > 0 ==> replies(s).len() > 0 && replies(s)[0].len() > 0 && s.len()
            >= replies(s)[0].len() && s.take(replies(s)[0].len() as int) == replies(s)[0]
            && replies(s).skip(1) == replies(s.skip(replies(s)[0].len() as int)),
        s.len() > 0 && replies(s)[0].len() < s.len() ==> s[replies(s)[0].len() as int] == 0x1b,
        s.len() == 0 ==> replies(s).len() == 0,
        forall|i: int|
            #![trigger s[i]]
            s.len() > 0 && 1 <= i < replies(s)[0].len() ==> !(s[i] == 0x1b && !(i + 1 < s.len()
                && s[i + 1] == 92)),
{
    if s.len() > 0 {
        lemma_ends(s, 1);
        let e = reply_end(s, 1);
        let all = replies(s);
        assert(all == seq![s.take(e)] + replies(s.skip(e)));
        assert(all[0] =~= s.take(e));
        assert(all.skip(1) =~= replies(s.skip(e)));
        assert forall|i: int|
            #![trigger s[i]]
            1 <= i < e implies !(s[i] == 0x1b && !(i + 1 < s.len() && s[i + 1] == 92)) by {
            assert(!reply_starts(s, i));
        }
    }
}

proof fn lemma_ends(s: Seq<u8>, i: int)
    requires
        0 <= i <= s.len(),
    ensures
        i <= reply_end(s, i) <= s.len(),
        reply_end(s, i) < s.len() ==> s[reply_end(s, i)] == 0x1b,
        forall|j: int| i <= j < reply_end(s, i) ==> !#[trigger] reply_starts(s, j),
    decreases s.len() - i,
{
    if i < s.len() && !reply_starts(s, i) {
        lemma_ends(s, i + 1);
    }
}

// ---- colours ------------------------------------------------------------------------------------

/// A component of the colour cube.
pub open spec fn cube_component(i: int) -> int {
    if i == 0 {
        0
    } else {
        55 + 40 * i
    }
}

/// The palette a terminal opens with: the cube of six levels a side behind the sixteen named
/// colours, red varying slowest, and a ramp of twenty-four greys behind that.
pub proof fn lemma_default_palette(r: int, g: int, b: int, k: int)
    requires
        0 <= r < 6,
        0 <= g < 6,
        0 <= b < 6,
        0 <= k < 24,
    ensures
        ({
            let c = default_shade(16 + 36 * r + 6 * g + b);
            let d = default_shade(232 + k);
            &&& c.r == cube_component(r) && c.g == cube_component(g) && c.b == cube_component(b)
            &&& d.r == 8 + 10 * k && d.g == 8 + 10 * k && d.b == 8 + 10 * k
        }),
        default_theme().palette.len() == 256,
        default_theme().palette[16 + 36 * r + 6 * g + b] == default_shade(16 + 36 * r + 6 * g + b),
        default_theme().fg == (Rgb { r: 255, g: 255, b: 255 }),
        default_theme().bg == (Rgb { r: 40, g: 44, b: 52 }),
        default_theme().cursor == (Rgb { r: 255, g: 0, b: 120 }),
{
    let i = 36 * r + 6 * g + b;
    assert(i / 36 == r && i / 6 % 6 == g && i % 6 == b) by (nonlinear_arith)
        requires
            i == 36 * r + 6 * g + b,
            0 <= r < 6,
            0 <= g < 6,
            0 <= b < 6,
    ;
}

/// The sixteen named colours: the dark eight and the bright eight, in the order black, red,
/// green, yellow, blue, magenta, cyan, white.
pub proof fn lemma_named_shades(i: int)
    requires
        0 <= i < 8,
    ensures
        ({
            let red = i % 2 == 1;
            let green = i / 2 % 2 == 1;
            let blue = i / 4 == 1;
            let d = default_shade(i);
            let l = default_shade(i + 8);
            &&& 0 < i < 7 && i != 4 ==> d.r == (if red {
                205int
            } else {
                0
            }) && d.g == (if green {
                205int
            } else {
                0
            }) && d.b == (if blue {
                205int
            } else {
                0
            })
            &&& i == 0 ==> d == (Rgb { r: 0, g: 0, b: 0 }) && l == (Rgb { r: 127, g: 127, b: 127 })
            &&& i == 4 ==> d == (Rgb { r: 0, g: 0, b: 238 }) && l == (Rgb { r: 92, g: 92, b: 255 })
            &&& i == 7 ==> d == (Rgb { r: 229, g: 229, b: 229 })
            &&& i > 0 && i != 4 ==> l.r == (if red {
                255int
            } else {
                0
            }) && l.g == (if green {
                255int
            } else {
                0
            }) && l.b == (if blue {
                255int
            } else {
                0
            })
        }),
{
}

/// What a colour is shown as: the default of its side, the palette's entry, or itself.
pub proof fn lemma_colors_shown(theme: ThemeView, i: u8, r: u8, g: u8, b: u8, ground: Ground)
    ensures
        Color::Default.shown(theme, Ground::Foreground) == theme.fg,
        Color::Default.shown(theme, Ground::Background) == theme.bg,
        Color::Ansi(i).shown(theme, ground) == theme.palette[i as int],
        Color::Indexed(i).shown(theme, ground) == theme.palette[i as int],
        Color::Rgb(r, g, b).shown(theme, ground) == (Rgb { r, g, b }),
{
}

/// A channel of a colour: one digit is doubled, and of two to four the first two count; no
/// digit, or more than four, is no channel.
pub proof fn lemma_channels(s: Seq<u8>, x: u8, y: u8)
    requires
        hex_value(x) is Some,
        hex_value(y) is Some,
    ensures
        channel_value(seq![x]) == Some((17 * hex_value(x)->0) as u8),
        channel_value(seq![x, y]) == Some((16 * hex_value(x)->0 + hex_value(y)->0) as u8),
        channel_value(seq![x, y, x]) == channel_value(seq![x, y]),
        channel_value(seq![x, y, x, y]) == channel_value(seq![x, y]),
        s.len() == 0 || s.len() > 4 || !all_hex(s) ==> channel_value(s) is None,
{
    let a = seq![x];
    assert(a[0] == x);
    let b = seq![x, y];
    assert(b[0] == x && b[1] == y);
    let c = seq![x, y, x];
    assert(c[0] == x && c[1] == y && c[2] == x);
    let d = seq![x, y, x, y];
    assert(d[0] == x && d[1] == y && d[2] == x && d[3] == y);
}

/// A colour behind a number sign: three runs of digits of one length, one for each channel.
pub proof fn lemma_hash_colors(r: Seq<u8>, g: Seq<u8>, b: Seq<u8>)
    requires
        r.len() == g.len() == b.len(),
    ensures
        x11_value(seq![35u8] + r + g + b) == (match (
            channel_value(r),
            channel_value(g),
            channel_value(b),
        ) {
            (Some(x), Some(y), Some(z)) => Some(Rgb { r: x, g: y, b: z }),
            _ => None,
        }),
{
    let s = seq![35u8] + r + g + b;
    let n = r.len() as int;
    assert(s.len() == 1 + 3 * n);
    assert((s.len() - 1) / 3 == n);
    assert(s.subrange(1, 1 + n) =~= r);
    assert(s.subrange(1 + n, 1 + 2 * n) =~= g);
    assert(s.subrange(1 + 2 * n, 1 + 3 * n) =~= b);
}

// ---- character sets, widths, clusters -----------------------------------------------------------

/// The line-drawing set replaces the characters from the underscore to the tilde and no
/// others, and is read only while it is in use.
pub proof fn lemma_line_drawing(c: char, sets: Charsets)
    ensures
        ({
            let table = seq![
                0x20u32, 0x25c6, 0x2592, 0x2409, 0x240c, 0x240d, 0x240a, 0xb0, 0xb1, 0x2424, 0x240b,
                0x2518, 0x2510, 0x250c, 0x2514, 0x253c, 0x23ba, 0x23bb, 0x2500, 0x23bc, 0x23bd,
                0x251c, 0x2524, 0x2534, 0x252c, 0x2502, 0x2264, 0x2265, 0x3c0, 0x2260, 0xa3, 0xb7,
            ];
            let set = if sets.gl_is_g1 {
                sets.g1
            } else {
                sets.g0
            };
            &&& '_' <= c <= '~' ==> line_drawing(c) as u32 == table[c as u32 - 0x5f]
            &&& !('_' <= c <= '~') ==> line_drawing(c) == c
            &&& mapped(c, sets) == (if set == Charset::Ascii {
                c
            } else {
                line_drawing(c)
            })
        }),
{
    reveal(mapped);
}

/// How many columns whole ranges of characters take: none for the combining marks and the
/// joiners, two for the ideographs, the kana, the Hangul syllables, the full-width forms and
/// the emoji, one for everything plain.
pub proof fn lemma_widths(c: char)
    ensures
        columns(c) <= 2,
        (c as u32) < 0x300 ==> columns(c) == 1,
        0x300 <= c as u32 <= 0x36f ==> columns(c) == 0,
        c as u32 == 0x200b || c as u32 == 0x200d || 0xfe00 <= c as u32 <= 0xfe0f ==> columns(c) == 0,
        0x4e00 <= c as u32 <= 0x9fff ==> columns(c) == 2,
        0xac00 <= c as u32 <= 0xd7a3 ==> columns(c) == 2,
        0xff01 <= c as u32 <= 0xff60 ==> columns(c) == 2,
        0x1f600 <= c as u32 <= 0x1f64f ==> columns(c) == 2,
        0x2500 <= c as u32 <= 0x257f ==> columns(c) == 1,
{
    reveal(columns);
}

/// A cluster is as wide as its widest character, but a flag, and anything asked to look like
/// an emoji, is two columns wide.
pub proof fn lemma_cluster_widths(text: Seq<char>, i: int)
    requires
        0 <= i < text.len(),
    ensures
        text[i] == '\u{fe0f}' ==> cluster_columns(text) == 2,
        text.len() >= 2 && 0x1f1e6 <= text[0] as u32 <= 0x1f1ff && 0x1f1e6 <= text[1] as u32
            <= 0x1f1ff ==> cluster_columns(text) == 2,
        cluster_columns(text) >= columns(text[i]),
        cluster_columns(text) <= 2,
        text.len() == 1 && text[0] != '\u{fe0f}' ==> cluster_columns(text) == columns(text[0]),
{
    lemma_widest(text, i);
    crate::width::lemma_columns(text[i]);
    if text.len() == 1 {
        assert(widest(text.drop_last()) == 0);
        assert(text.contains('\u{fe0f}') ==> text[0] == '\u{fe0f}');
    }
}

proof fn lemma_widest(text: Seq<char>, i: int)
    requires
        0 <= i < text.len(),
    ensures
        columns(text[i]) <= widest(text) <= 2,
    decreases text.len(),
{
    let n = text.len() - 1;
    crate::width::lemma_columns(text[n]);
    if n > 0 {
        let init = text.drop_last();
        if i < n {
            assert(init[i] == text[i]);
            lemma_widest(init, i);
        } else {
            lemma_widest(init, 0);
        }
    } else {
        assert(widest(text.drop_last()) == 0);
    }
}

/// Where clusters break: at the start; never before a combining mark, a modifier or a joiner;
/// not before a pictograph that a joiner ties to one; between regional indicators after every
/// second; and before anything else.
pub proof fn lemma_cluster_breaks(state: BreakState, c: char, flag: char, picture: char)
    requires
        0x1f1e6 <= flag as u32 <= 0x1f1ff,
        0x1f600 <= picture as u32 <= 0x1f64f,
    ensures
        ({
            let joiner = '\u{200d}';
            let start = BreakState {
                started: false,
                pictograph: false,
                joined: false,
                odd_regional: false,
            };
            &&& start.boundary(c)
            &&& state.after(c).started
            &&& state.started && 0x300 <= c as u32 <= 0x36f ==> !state.boundary(c)
            &&& state.started && 0x1f3fb <= c as u32 <= 0x1f3ff ==> !state.boundary(c)
            &&& state.started ==> !state.boundary(joiner)
            &&& state.started && 0x20 <= c as u32 <= 0x7e ==> state.boundary(c)
            &&& !state.after(picture).after(joiner).boundary(picture)
            &&& state.after(picture).boundary(picture)
            &&& !start.after(flag).boundary(flag)
            &&& start.after(flag).after(flag).boundary(flag)
            &&& !start.after(flag).after(flag).after(flag).boundary(flag)
        }),
{
    reveal(class_of);
}

} // verus!
