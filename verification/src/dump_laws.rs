//! What the dumps show: the grid between bars, the cells that are styled, the switches, and
//! the replies with their control bytes named.
use vstd::prelude::*;
use crate::attrs::{flag_bit, flag_list, flag_name, Attrs, UnderlineStyle};
use crate::cell::Cell;
use crate::codec::{named_byte, replies, reply_text};
use crate::color::Color;
use crate::screen::ScreenView;
use crate::snapshot::{flag_text, reply_lines, style_line};
use crate::text::{decimal_text, quoted_char, quoted_text};

verus! {

/// A switch spelled out.
pub open spec fn spelled_switch(on: bool) -> Seq<char> {
    if on {
        seq!['t', 'r', 'u', 'e']
    } else {
        seq!['f', 'a', 'l', 's', 'e']
    }
}

proof fn lemma_switch(name: Seq<char>, on: bool)
    ensures
        flag_text(name, on) == name + spelled_switch(on),
{
    reveal(flag_text);
    reveal_strlit("true");
    reveal_strlit("false");
    assert("true"@ =~= seq!['t', 'r', 'u', 'e']);
    assert("false"@ =~= seq!['f', 'a', 'l', 's', 'e']);
}

/// The switches in a dump, each by its name: which screen is in front, autowrap, origin and
/// insert mode; the cursor, pastes, the cursor keys and the keypad.
pub proof fn lemma_switches_told(s: ScreenView)
    ensures
        s.screen_flags() == "flags alt="@ + spelled_switch(s.on_alt) + (" autowrap="@
            + spelled_switch(s.modes.autowrap)) + (" origin="@ + spelled_switch(
            s.modes.origin_mode,
        )) + (" insert="@ + spelled_switch(s.modes.insert_mode)),
        s.input_flags() == " cursor_vis="@ + spelled_switch(s.output.cursor_visible) + (
        " bracketed="@ + spelled_switch(s.input.bracketed_paste)) + (" appcursor="@
            + spelled_switch(s.input.app_cursor_keys)) + (" keypad="@ + spelled_switch(
            s.input.keypad_app,
        )),
{
    lemma_switch("flags alt="@, s.on_alt);
    lemma_switch(" autowrap="@, s.modes.autowrap);
    lemma_switch(" origin="@, s.modes.origin_mode);
    lemma_switch(" insert="@, s.modes.insert_mode);
    lemma_switch(" cursor_vis="@, s.output.cursor_visible);
    lemma_switch(" bracketed="@, s.input.bracketed_paste);
    lemma_switch(" appcursor="@, s.input.app_cursor_keys);
    lemma_switch(" keypad="@, s.input.keypad_app);
}

/// A row of the grid in a dump stands between bars, flagged where it wraps, on a line of its
/// own below the rows before it.
pub proof fn lemma_grid_told(s: ScreenView, n: int)
    requires
        0 <= n < s.active().lines.len(),
    ensures
        s.grid_text(0) == Seq::<char>::empty(),
        s.grid_text(n + 1) == s.grid_text(n) + (seq!['|'] + s.row_text(n) + seq!['|'] + (
        if s.active().lines[n].wrapped {
            seq![' ', 'w', 'r', 'a', 'p', 'p', 'e', 'd']
        } else {
            Seq::empty()
        }) + seq!['\n']),
        s.row_text(n) == s.active().lines[n].text(0, s.active().lines[n].cells.len() as int),
{
    reveal_strlit("|");
    reveal_strlit(" wrapped");
    reveal_strlit("\n");
    assert("|"@ =~= seq!['|']);
    assert(" wrapped"@ =~= seq![' ', 'w', 'r', 'a', 'p', 'p', 'e', 'd']);
    assert("\n"@ =~= seq!['\n']);
    let end = if s.active().lines[n].wrapped {
        seq![' ', 'w', 'r', 'a', 'p', 'p', 'e', 'd']
    } else {
        Seq::empty()
    };
    let g = s.grid_text(n);
    let r = s.row_text(n);
    assert(g + seq!['|'] + r + seq!['|'] + end + seq!['\n'] =~= g + (seq!['|'] + r + seq!['|']
        + end + seq!['\n']));
}

/// A cell has a line in the style key exactly where its colours or attributes are not the
/// defaults, with its place, its character, its colours and its attributes.
pub proof fn lemma_styles_told(row: int, col: int, c: Cell)
    ensures
        c.fg == Color::Default && c.bg == Color::Default && c.attrs.0 & 0xf1ff == 0 ==> style_line(
            row,
            col,
            c,
        ) == Seq::<char>::empty(),
        c.fg != Color::Default || c.bg != Color::Default || c.attrs.0 & 0xf1ff != 0 ==> style_line(
            row,
            col,
            c,
        ) == "r"@ + decimal_text(row as nat) + "c"@ + decimal_text(col as nat) + " "@ + quoted_char(
            c.rune,
        ) + " fg="@ + c.fg.text() + " bg="@ + c.bg.text() + " "@ + c.attrs.text() + "\n"@,
{
    let x = c.attrs.0;
    assert(x & !0x0e00u16 == x & 0xf1ff) by (bit_vector);
}

/// The style key goes through the cells of the screen row by row.
pub proof fn lemma_style_key(s: ScreenView, row: int, k: int)
    requires
        0 <= row,
        0 <= k,
    ensures
        s.row_styles(row, 0) == Seq::<char>::empty(),
        s.row_styles(row, k + 1) == s.row_styles(row, k) + style_line(
            row,
            k,
            s.active().cell_at(row, k),
        ),
        s.styles_text(0) == Seq::<char>::empty(),
        s.styles_text(row + 1) == s.styles_text(row) + s.row_styles(row, s.active().cols as int),
{
}

/// The whole dump: the size in columns and rows, the cursor's row and column, the switches,
/// the title, the grid, the style key, and the replies where there are any.
pub proof fn lemma_snapshot_told(s: ScreenView)
    ensures
        ({
            let b = s.active();
            let head = "size "@ + decimal_text(b.cols as nat) + "x"@ + decimal_text(b.rows as nat)
                + "\ncursor "@ + decimal_text(b.cursor.row as nat) + ","@ + decimal_text(
                b.cursor.col as nat,
            ) + "\n"@ + s.screen_flags() + s.input_flags() + "\ntitle "@ + quoted_text(s.title)
                + "\n"@;
            let told = if s.responses.len() == 0 {
                Seq::empty()
            } else {
                "replies:\n"@ + reply_lines(replies(s.responses))
            };
            s.snapshot_text() == head + "grid:\n"@ + s.grid_text(b.rows as int) + "style:\n"@
                + s.styles_text(b.rows as int) + told
        }),
{
}

/// A reply is shown byte by byte: printable ASCII as it is, the escape and the bell by name,
/// anything else by its two hexadecimal digits.
pub proof fn lemma_replies_told(s: Seq<u8>, b: u8, list: Seq<Seq<u8>>)
    ensures
        reply_text(Seq::empty()) == Seq::<char>::empty(),
        reply_text(s.push(b)) == reply_text(s) + named_byte(b),
        0x20 <= b <= 0x7e ==> named_byte(b) == seq![b as char],
        b == 0x1b ==> named_byte(b) == seq!['<', 'E', 'S', 'C', '>'],
        b == 7 ==> named_byte(b) == seq!['<', 'B', 'E', 'L', '>'],
        (b < 0x20 || b > 0x7e) && b != 0x1b && b != 7 ==> named_byte(b).len() == 6 && named_byte(
            b,
        ).take(3) == seq!['<', '0', 'x'] && named_byte(b)[5] == '>' && hex_of(named_byte(b)[3])
            == b / 16 && hex_of(named_byte(b)[4]) == b % 16,
        reply_lines(list.push(s)) == reply_lines(list) + reply_text(s) + seq!['\n'],
{
    reveal_strlit("<ESC>");
    reveal_strlit("<BEL>");
    reveal_strlit("<0x");
    reveal_strlit(">");
    reveal_strlit("\n");
    assert("\n"@ =~= seq!['\n']);
    assert("<ESC>"@ =~= seq!['<', 'E', 'S', 'C', '>']);
    assert("<BEL>"@ =~= seq!['<', 'B', 'E', 'L', '>']);
    assert("<0x"@ =~= seq!['<', '0', 'x']);
    assert(">"@ =~= seq!['>']);
    assert(s.push(b).drop_last() =~= s);
    assert(list.push(s).drop_last() =~= list);
    if (b < 0x20 || b > 0x7e) && b != 0x1b && b != 7 {
        let t = named_byte(b);
        assert(t.take(3) =~= seq!['<', '0', 'x']);
    }
}

/// The value of a lower-case hexadecimal digit.
pub open spec fn hex_of(c: char) -> int {
    if '0' <= c <= '9' {
        c as int - 48
    } else {
        c as int - 87
    }
}

/// Attributes are plain exactly where none of the flags, nor any bit behind the shape of the
/// underline, is set; the shape alone is no attribute.
pub proof fn lemma_plain_attributes(a: Attrs)
    ensures
        a.plain() <==> a.0 & 0xf1ff == 0,
{
    let x = a.0;
    assert(x & !0x0e00u16 == x & 0xf1ff) by (bit_vector);
}

/// The names of the flags, from the lowest bit on.
pub open spec fn flag_names() -> Seq<Seq<char>> {
    seq![
        "BOLD"@,
        "DIM"@,
        "ITALIC"@,
        "UNDERLINE"@,
        "REVERSE"@,
        "STRIKE"@,
        "HIDDEN"@,
        "WIDE_LEADER"@,
        "WIDE_SPACER"@,
    ]
}

/// A bit above others neither hides nor sets one of them.
proof fn lemma_higher_bit(x: u16, f: u16, g: u16)
    requires
        f == 1 || f == 2 || f == 4 || f == 8 || f == 16 || f == 32 || f == 64 || f == 128 || f
            == 256,
        g == 1 || g == 2 || g == 4 || g == 8 || g == 16 || g == 32 || g == 64 || g == 128 || g
            == 256,
        x < f,
    ensures
        g < f ==> (x | f) & g == x & g,
        g == f ==> (x | f) & g == g,
        g > f ==> (x | f) & g != g,
        g >= f ==> x & g != g,
{
    assert((g < f ==> (x | f) & g == x & g) && (g == f ==> (x | f) & g == g) && (g > f ==> (x | f)
        & g != g) && (g >= f ==> x & g != g)) by (bit_vector)
        requires
            f == 1 || f == 2 || f == 4 || f == 8 || f == 16 || f == 32 || f == 64 || f == 128 || f
                == 256,
            g == 1 || g == 2 || g == 4 || g == 8 || g == 16 || g == 32 || g == 64 || g == 128 || g
                == 256,
            x < f,
    ;
}

/// The flags in a dump stand in the order of their bits, joined by bars: one more above those
/// that are set adds its name, behind a bar where it is not the first.
pub proof fn lemma_flags_told(a: Attrs, i: int)
    requires
        0 <= i < 9,
        a.0 < flag_bit(i).0,
    ensures
        flag_list(Attrs(0), 9).0 == Seq::<char>::empty(),
        flag_list(Attrs(a.0 | flag_bit(i).0), 9).0 == (if a.0 == 0 {
            flag_names()[i]
        } else {
            flag_list(a, 9).0 + seq!['|'] + flag_names()[i]
        }),
        flag_bit(0).0 == 1 && (i > 0 ==> flag_bit(i).0 == 2 * flag_bit(i - 1).0),
{
    let b = Attrs(a.0 | flag_bit(i).0);
    reveal_strlit("|");
    assert("|"@ =~= seq!['|']);
    lemma_none_listed(9);
    lemma_listed_below(a, b, i, i);
    lemma_listed_above(b, i, 9);
    lemma_none_above(a, i, 9);
    lemma_some_listed(a, i);
    assert(flag_list(b, i + 1).0 == (if flag_list(b, i).1 {
        flag_list(b, i).0
    } else {
        flag_list(b, i).0 + "|"@
    }) + flag_name(i)) by {
        lemma_higher_bit(a.0, flag_bit(i).0, flag_bit(i).0);
    }
    assert(flag_names()[i] == flag_name(i));
    if a.0 == 0 {
        assert(flag_list(a, i).0 == Seq::<char>::empty()) by {
            lemma_none_listed(i);
        }
        assert(Seq::<char>::empty() + flag_name(i) =~= flag_name(i));
    }
}

proof fn lemma_none_listed(k: int)
    requires
        0 <= k <= 9,
    ensures
        flag_list(Attrs(0), k) == (Seq::<char>::empty(), true),
    decreases k,
{
    if k > 0 {
        lemma_none_listed(k - 1);
        let g = flag_bit(k - 1).0;
        assert(0u16 & g == 0) by (bit_vector);
        assert(g != 0);
    }
}

proof fn lemma_listed_below(a: Attrs, b: Attrs, i: int, k: int)
    requires
        0 <= k <= i < 9,
        a.0 < flag_bit(i).0,
        b.0 == a.0 | flag_bit(i).0,
    ensures
        flag_list(b, k) == flag_list(a, k),
    decreases k,
{
    if k > 0 {
        lemma_listed_below(a, b, i, k - 1);
        lemma_higher_bit(a.0, flag_bit(i).0, flag_bit(k - 1).0);
    }
}

proof fn lemma_listed_above(b: Attrs, i: int, k: int)
    requires
        0 <= i < k <= 9,
        exists|x: u16| x < flag_bit(i).0 && b.0 == #[trigger] (x | flag_bit(i).0),
    ensures
        flag_list(b, k) == flag_list(b, i + 1),
    decreases k,
{
    if k > i + 1 {
        lemma_listed_above(b, i, k - 1);
        let x = choose|x: u16| x < flag_bit(i).0 && b.0 == #[trigger] (x | flag_bit(i).0);
        lemma_higher_bit(x, flag_bit(i).0, flag_bit(k - 1).0);
    }
}

proof fn lemma_none_above(a: Attrs, i: int, k: int)
    requires
        0 <= i <= k <= 9,
        i < 9,
        a.0 < flag_bit(i).0,
    ensures
        flag_list(a, k) == flag_list(a, i),
    decreases k,
{
    if k > i {
        lemma_none_above(a, i, k - 1);
        lemma_higher_bit(a.0, flag_bit(i).0, flag_bit(k - 1).0);
    }
}

/// Where a bit below is set a flag was listed.
proof fn lemma_some_listed(a: Attrs, i: int)
    requires
        0 <= i < 9,
        a.0 < flag_bit(i).0,
    ensures
        flag_list(a, i).1 == (a.0 == 0),
    decreases i,
{
    if i == 0 {
        assert(a.0 == 0);
    } else {
        let f = flag_bit(i - 1).0;
        let x = a.0;
        if x < f {
            lemma_some_listed(a, i - 1);
            lemma_higher_bit(x, f, f);
        } else {
            assert(x & f == f) by (bit_vector)
                requires
                    f == 1 || f == 2 || f == 4 || f == 8 || f == 16 || f == 32 || f == 64 || f
                        == 128,
                    f <= x,
                    x < 2 * f,
            ;
        }
    }
}

/// The attributes in a dump: a dash where there are none, else the flags, and behind a colon
/// the shape of an underline that is not the plain one.
pub proof fn lemma_attributes_told(a: Attrs)
    ensures
        ({
            let list = flag_list(a, 9).0;
            let shape = match a.style() {
                UnderlineStyle::Single => Seq::empty(),
                UnderlineStyle::Double => ":"@ + "Double"@,
                UnderlineStyle::Curly => ":"@ + "Curly"@,
                UnderlineStyle::Dotted => ":"@ + "Dotted"@,
                UnderlineStyle::Dashed => ":"@ + "Dashed"@,
            };
            &&& a.0 & 0xf1ff == 0 ==> a.text() == "Attrs("@ + "-"@ + ")"@
            &&& a.0 & 0xf1ff != 0 && a.0 & 8 != 8 ==> a.text() == "Attrs("@ + list + ")"@
            &&& a.0 & 0xf1ff != 0 && a.0 & 8 == 8 ==> a.text() == "Attrs("@ + (list + shape) + ")"@
        }),
{
    lemma_plain_attributes(a);
    let list = flag_list(a, 9).0;
    assert(list + Seq::<char>::empty() =~= list);
    assert(list + ":"@ + "Double"@ =~= list + (":"@ + "Double"@));
    assert(list + ":"@ + "Curly"@ =~= list + (":"@ + "Curly"@));
    assert(list + ":"@ + "Dotted"@ =~= list + (":"@ + "Dotted"@));
    assert(list + ":"@ + "Dashed"@ =~= list + (":"@ + "Dashed"@));
}

/// A colour is shown by its kind and its numbers.
pub proof fn lemma_colors_told(i: u8, r: u8, g: u8, b: u8)
    ensures
        Color::Default.text() == "Default"@,
        Color::Ansi(i).text() == "Ansi("@ + decimal_text(i as nat) + ")"@,
        Color::Indexed(i).text() == "Indexed("@ + decimal_text(i as nat) + ")"@,
        Color::Rgb(r, g, b).text() == "Rgb("@ + decimal_text(r as nat) + ", "@ + decimal_text(
            g as nat,
        ) + ", "@ + decimal_text(b as nat) + ")"@,
{
}

} // verus!
