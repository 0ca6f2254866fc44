//! What a program is told of a setting puts the setting back: the parameters in the answer
//! about the rendition give the pen that was asked about.
use vstd::prelude::*;
use crate::attrs::{code_of_style, Attrs, UnderlineStyle};
use crate::cell::Pen;
use crate::color::Color;
use crate::query::{attr_codes, code_if, color_codes, underline_code};
use crate::screen::ScreenView;
use crate::sgr::{attrs_after, ext_color, sgr_next, underline_shape};
use crate::text::{decimal, utf8};
use crate::vt::{lead, sub_at, value_at};

verus! {

/// Attributes a rendition can set: no halves of wide characters, and a shape only on an
/// underline that is there.
pub open spec fn settable(a: Attrs) -> bool {
    &&& a.0 & 0xf180 == 0
    &&& a.with_style(a.style()) == a
    &&& !a.has(Attrs::underline()) ==> a.style() is Single
}

/// A colour a rendition can set.
pub open spec fn settable_color(c: Color) -> bool {
    c matches Color::Ansi(i) ==> i < 16
}

/// A pen whose rendition can be set.
pub open spec fn settable_pen(pen: Pen) -> bool {
    settable(pen.attrs) && settable_color(pen.fg) && settable_color(pen.bg)
}

/// One parameter in front, where it applies.
pub open spec fn param_if(applies: bool, param: Seq<u16>, rest: Seq<Seq<u16>>) -> Seq<Seq<u16>> {
    if applies {
        seq![param] + rest
    } else {
        rest
    }
}

/// The parameter that sets an underline of this shape.
pub open spec fn underline_param(style: UnderlineStyle) -> Seq<u16> {
    match style {
        UnderlineStyle::Single => seq![4],
        UnderlineStyle::Double => seq![4, 2],
        UnderlineStyle::Curly => seq![4, 3],
        UnderlineStyle::Dotted => seq![4, 4],
        UnderlineStyle::Dashed => seq![4, 5],
    }
}

/// The parameters that set a colour, in front of others.
pub open spec fn color_params(c: Color, foreground: bool, rest: Seq<Seq<u16>>) -> Seq<Seq<u16>> {
    let base: int = if foreground {
        30
    } else {
        40
    };
    match c {
        Color::Default => rest,
        Color::Ansi(i) => if i < 8 {
            seq![seq![(base + i) as u16]] + rest
        } else {
            seq![seq![(base + 60 + i % 8) as u16]] + rest
        },
        Color::Indexed(i) => seq![seq![(base + 8) as u16], seq![5u16], seq![i as u16]] + rest,
        Color::Rgb(r, g, b) => seq![
            seq![(base + 8) as u16],
            seq![2u16],
            seq![r as u16],
            seq![g as u16],
            seq![b as u16],
        ] + rest,
    }
}

/// The parameters that set these attributes on a pen without any, in front of others.
pub open spec fn attr_params(a: Attrs, rest: Seq<Seq<u16>>) -> Seq<Seq<u16>> {
    param_if(
        a.has(Attrs::bold()),
        seq![1],
        param_if(
            a.has(Attrs::dim()),
            seq![2],
            param_if(
                a.has(Attrs::italic()),
                seq![3],
                param_if(
                    a.has(Attrs::underline()),
                    underline_param(a.style()),
                    param_if(
                        a.has(Attrs::reverse()),
                        seq![7],
                        param_if(
                            a.has(Attrs::hidden()),
                            seq![8],
                            param_if(a.has(Attrs::strike()), seq![9], rest),
                        ),
                    ),
                ),
            ),
        ),
    )
}

/// The parameters after the reset that set a pen's rendition.
pub open spec fn pen_params(pen: Pen) -> Seq<Seq<u16>> {
    attr_params(pen.attrs, color_params(pen.fg, true, color_params(pen.bg, false, Seq::empty())))
}

// ---- the parameters set the pen ----------------------------------------------------------------

/// What a parameter and its arguments mean does not depend on what stands before them.
proof fn lemma_suffix(pen: Pen, a: Seq<Seq<u16>>, b: Seq<Seq<u16>>, k: int)
    requires
        0 <= k,
    ensures
        pen.after_params(a + b, a.len() + k) == pen.after_params(b, k),
    decreases
            if k < b.len() {
                b.len() - k
            } else {
                0
            },
{
    let all = a + b;
    let at = a.len() + k;
    if k < b.len() {
        assert(all[at] == b[k]);
        assert(forall|i: int| 0 <= i < b.len() ==> #[trigger] all[a.len() + i] == b[i]);
        assert forall|j: int| 0 <= j implies #[trigger] value_at(all, at + j) == value_at(
            b,
            k + j,
        ) by {
            if k + j < b.len() {
                assert(all[a.len() + (k + j)] == b[k + j]);
            }
        }
        assert(value_at(all, at + 1) == value_at(b, k + 1));
        assert(value_at(all, at + 2) == value_at(b, k + 2));
        assert(value_at(all, at + 3) == value_at(b, k + 3));
        assert(value_at(all, at + 4) == value_at(b, k + 4));
        assert(ext_color(all, at) == ext_color(b, k));
        let next = sgr_next(b, k);
        assert(sgr_next(all, at) == a.len() + next);
        lemma_suffix(pen.after_param(b, k), a, b, next);
    }
}

/// A parameter that introduces no colour is applied, and then the rest.
proof fn lemma_first(pen: Pen, param: Seq<u16>, rest: Seq<Seq<u16>>)
    requires
        lead(param) != 38 && lead(param) != 48 && lead(param) != 58,
    ensures
        pen.after_params(seq![param] + rest, 0) == pen.after_param(
            seq![param],
            0,
        ).after_params(rest, 0),
{
    let all = seq![param] + rest;
    assert(all[0] == param);
    lemma_suffix(pen.after_param(all, 0), seq![param], rest, 0);
}

/// An attribute parameter, where it applies.
pub open spec fn attr_if(a: Attrs, applies: bool, param: Seq<u16>) -> Attrs {
    if applies {
        attrs_after(a, param)
    } else {
        a
    }
}

proof fn lemma_attr_first(pen: Pen, applies: bool, param: Seq<u16>, rest: Seq<Seq<u16>>)
    requires
        1 <= lead(param) <= 9,
    ensures
        pen.after_params(param_if(applies, param, rest), 0) == (Pen {
            attrs: attr_if(pen.attrs, applies, param),
            ..pen
        }).after_params(rest, 0),
{
    if applies {
        lemma_first(pen, param, rest);
    }
}

/// The attributes the parameters of `a` set on none.
pub open spec fn attrs_set(a: Attrs) -> Attrs {
    let a1 = attr_if(Attrs(0), a.has(Attrs::bold()), seq![1]);
    let a2 = attr_if(a1, a.has(Attrs::dim()), seq![2]);
    let a3 = attr_if(a2, a.has(Attrs::italic()), seq![3]);
    let a4 = attr_if(a3, a.has(Attrs::underline()), underline_param(a.style()));
    let a5 = attr_if(a4, a.has(Attrs::reverse()), seq![7]);
    let a6 = attr_if(a5, a.has(Attrs::hidden()), seq![8]);
    attr_if(a6, a.has(Attrs::strike()), seq![9])
}

proof fn lemma_attr_params(pen: Pen, a: Attrs, rest: Seq<Seq<u16>>)
    requires
        pen.attrs == Attrs(0),
    ensures
        pen.after_params(attr_params(a, rest), 0) == (Pen {
            attrs: attrs_set(a),
            ..pen
        }).after_params(rest, 0),
{
    let r7 = param_if(a.has(Attrs::strike()), seq![9], rest);
    let r6 = param_if(a.has(Attrs::hidden()), seq![8], r7);
    let r5 = param_if(a.has(Attrs::reverse()), seq![7], r6);
    let r4 = param_if(a.has(Attrs::underline()), underline_param(a.style()), r5);
    let r3 = param_if(a.has(Attrs::italic()), seq![3], r4);
    let r2 = param_if(a.has(Attrs::dim()), seq![2], r3);
    let a1 = attr_if(Attrs(0), a.has(Attrs::bold()), seq![1]);
    let a2 = attr_if(a1, a.has(Attrs::dim()), seq![2]);
    let a3 = attr_if(a2, a.has(Attrs::italic()), seq![3]);
    let a4 = attr_if(a3, a.has(Attrs::underline()), underline_param(a.style()));
    let a5 = attr_if(a4, a.has(Attrs::reverse()), seq![7]);
    let a6 = attr_if(a5, a.has(Attrs::hidden()), seq![8]);
    lemma_attr_first(pen, a.has(Attrs::bold()), seq![1], r2);
    lemma_attr_first(Pen { attrs: a1, ..pen }, a.has(Attrs::dim()), seq![2], r3);
    lemma_attr_first(Pen { attrs: a2, ..pen }, a.has(Attrs::italic()), seq![3], r4);
    lemma_attr_first(
        Pen { attrs: a3, ..pen },
        a.has(Attrs::underline()),
        underline_param(a.style()),
        r5,
    );
    lemma_attr_first(Pen { attrs: a4, ..pen }, a.has(Attrs::reverse()), seq![7], r6);
    lemma_attr_first(Pen { attrs: a5, ..pen }, a.has(Attrs::hidden()), seq![8], r7);
    lemma_attr_first(Pen { attrs: a6, ..pen }, a.has(Attrs::strike()), seq![9], rest);
}

/// A bit that is there, or nothing.
pub open spec fn bit_of(a: u16, bit: u16) -> u16 {
    if a & bit == bit {
        bit
    } else {
        0
    }
}

proof fn lemma_attrs_set(a: Attrs)
    requires
        settable(a),
    ensures
        attrs_set(a) == a,
{
    let style = a.style();
    assert(underline_shape(sub_at(underline_param(style), 1)) == style);
    let x = a.0;
    let s = code_of_style(style);
    let low = bit_of(x, 1) | bit_of(x, 2) | bit_of(x, 4);
    assert(0u16 | 1 == 1) by (bit_vector);
    assert(attr_if(
        attr_if(
            attr_if(Attrs(0), a.has(Attrs(1)), seq![1]),
            a.has(Attrs(2)),
            seq![2],
        ),
        a.has(Attrs(4)),
        seq![3],
    ).0 == low) by {
        let p = bit_of(x, 1);
        let q = bit_of(x, 1) | bit_of(x, 2);
        assert(p | 0 == p) by (bit_vector);
        assert(q | 0 == q) by (bit_vector);
    }
    let mid = if x & 8 == 8 {
        ((low | 8) & !0x0e00u16) | (s << 9u16)
    } else {
        low
    };
    let high = mid | bit_of(x, 16) | bit_of(x, 64) | bit_of(x, 32);
    assert(attrs_set(a).0 == high) by {
        let p = mid | bit_of(x, 16);
        let q = mid | bit_of(x, 16) | bit_of(x, 64);
        assert(mid | 0 == mid) by (bit_vector);
        assert(p | 0 == p) by (bit_vector);
        assert(q | 0 == q) by (bit_vector);
    }
    assert((x & !0x0e00u16) | (s << 9u16) == x);
    let (b1, b2, b4, b16, b32, b64) = (
        bit_of(x, 1),
        bit_of(x, 2),
        bit_of(x, 4),
        bit_of(x, 16),
        bit_of(x, 32),
        bit_of(x, 64),
    );
    assert(high == x) by (bit_vector)
        requires
            x & 0xf180 == 0,
            (x & !0x0e00u16) | (s << 9u16) == x,
            s <= 4,
            x & 8 != 8 ==> s == 0,
            b1 == (if x & 1 == 1 { 1u16 } else { 0u16 }),
            b2 == (if x & 2 == 2 { 2u16 } else { 0u16 }),
            b4 == (if x & 4 == 4 { 4u16 } else { 0u16 }),
            b16 == (if x & 16 == 16 { 16u16 } else { 0u16 }),
            b32 == (if x & 32 == 32 { 32u16 } else { 0u16 }),
            b64 == (if x & 64 == 64 { 64u16 } else { 0u16 }),
            low == b1 | b2 | b4,
            mid == (if x & 8 == 8 { ((low | 8) & !0x0e00u16) | (s << 9u16) } else { low }),
            high == mid | b16 | b64 | b32,
    ;
}

proof fn lemma_color_params(pen: Pen, c: Color, foreground: bool, rest: Seq<Seq<u16>>)
    requires
        settable_color(c),
        foreground ==> pen.fg is Default,
        !foreground ==> pen.bg is Default,
    ensures
        pen.after_params(color_params(c, foreground, rest), 0) == (if foreground {
            Pen { fg: c, ..pen }
        } else {
            Pen { bg: c, ..pen }
        }).after_params(rest, 0),
{
    let all = color_params(c, foreground, rest);
    let base: int = if foreground {
        30
    } else {
        40
    };
    let done = if foreground {
        Pen { fg: c, ..pen }
    } else {
        Pen { bg: c, ..pen }
    };
    match c {
        Color::Default => {},
        Color::Ansi(i) => {
            let p = if i < 8 {
                (base + i) as u16
            } else {
                (base + 60 + i % 8) as u16
            };
            lemma_first(pen, seq![p], rest);
            assert(seq![p][0] == p);
        },
        Color::Indexed(i) => {
            let head = seq![seq![(base + 8) as u16], seq![5u16], seq![i as u16]];
            assert(all[0] == head[0] && all[1] == head[1] && all[2] == head[2]);
            assert(pen.after_param(all, 0) == done);
            lemma_suffix(done, head, rest, 0);
        },
        Color::Rgb(r, g, b) => {
            let head = seq![
                seq![(base + 8) as u16],
                seq![2u16],
                seq![r as u16],
                seq![g as u16],
                seq![b as u16],
            ];
            assert(all[0] == head[0] && all[1] == head[1] && all[2] == head[2] && all[3]
                == head[3] && all[4] == head[4]);
            assert(pen.after_param(all, 0) == done);
            lemma_suffix(done, head, rest, 0);
        },
    }
}

/// The parameters that are told of a rendition set it again, whatever the pen was in between.
pub proof fn lemma_reported_rendition_is_set(pen: Pen, other: Pen)
    requires
        settable_pen(pen),
    ensures
        other.rendered(seq![seq![0u16]] + pen_params(pen)) == (Pen { link: other.link, ..pen }),
{
    let bare = Pen { fg: Color::Default, bg: Color::Default, attrs: Attrs(0), link: other.link };
    let params = pen_params(pen);
    lemma_first(other, seq![0u16], params);
    assert(seq![seq![0u16]][0] == seq![0u16]);
    assert(other.after_param(seq![seq![0u16]], 0) == bare);
    let colors = color_params(pen.fg, true, color_params(pen.bg, false, Seq::empty()));
    lemma_attr_params(bare, pen.attrs, colors);
    lemma_attrs_set(pen.attrs);
    let inked = Pen { attrs: pen.attrs, ..bare };
    lemma_color_params(inked, pen.fg, true, color_params(pen.bg, false, Seq::empty()));
    lemma_color_params(Pen { fg: pen.fg, ..inked }, pen.bg, false, Seq::empty());
}

// ---- every pen a rendition sets is one that can be told ------------------------------------------

/// Attributes that can be set, bit by bit.
pub open spec fn settable_bits(x: u16) -> bool {
    &&& x & 0xf180 == 0
    &&& (x & 0x0e00) >> 9u16 <= 4
    &&& x & 8 != 8 ==> x & 0x0e00 == 0
}

proof fn lemma_settable_bits(a: Attrs)
    ensures
        settable(a) <==> settable_bits(a.0),
{
    let x = a.0;
    let code = (x & 0x0e00) >> 9u16;
    let s = code_of_style(a.style());
    assert((x & !0x0e00u16) | (s << 9u16) == x <==> s == code) by (bit_vector)
        requires
            code == (x & 0x0e00) >> 9u16,
            s <= 4,
    ;
    assert(code == 0 <==> x & 0x0e00 == 0) by (bit_vector)
        requires
            code == (x & 0x0e00) >> 9u16,
    ;
    assert(code <= 7) by (bit_vector)
        requires
            code == (x & 0x0e00) >> 9u16,
    ;
}

proof fn lemma_settable_kept(a: Attrs, param: Seq<u16>)
    requires
        settable(a),
    ensures
        settable(attrs_after(a, param)),
{
    lemma_settable_bits(a);
    lemma_settable_bits(attrs_after(a, param));
    let x = a.0;
    assert(settable_bits(0)) by (bit_vector);
    assert(forall|f: u16|
        f == 1 || f == 2 || f == 4 || f == 16 || f == 32 || f == 64 ==> settable_bits(
            #[trigger] (x | f),
        )) by (bit_vector)
        requires
            settable_bits(x),
    ;
    assert(forall|f: u16|
        f == 1 || f == 2 || f == 4 || f == 16 || f == 32 || f == 64 ==> settable_bits(x & !f)
            && #[trigger] (x & !f) == x & !f) by (bit_vector)
        requires
            settable_bits(x),
    ;
    assert(settable_bits((x & !1u16) & !2u16)) by (bit_vector)
        requires
            settable_bits(x),
    ;
    assert(forall|s: u16| s <= 4 ==> settable_bits(((x | 8) & !0x0e00u16) | #[trigger] (s << 9u16)))
        by (bit_vector)
        requires
            settable_bits(x),
    ;
    assert(settable_bits(((x & !8u16) & !0x0e00u16) | (0u16 << 9u16))) by (bit_vector)
        requires
            settable_bits(x),
    ;
}

proof fn lemma_params_settable(pen: Pen, params: Seq<Seq<u16>>, at: int)
    requires
        settable_pen(pen),
        0 <= at,
    ensures
        settable_pen(pen.after_params(params, at)),
    decreases
            if at < params.len() {
                params.len() - at
            } else {
                0
            },
{
    if at < params.len() {
        lemma_settable_kept(pen.attrs, params[at]);
        lemma_params_settable(pen.after_param(params, at), params, sgr_next(params, at));
    }
}

/// Every rendition that can be set can be told and set again: the first pen is one, and no
/// rendition leads to one that is not.
pub proof fn lemma_renditions_are_settable(pen: Pen, params: Seq<Seq<u16>>)
    ensures
        settable_pen(Pen::initial()),
        settable_pen(pen) ==> settable_pen(pen.rendered(params)),
{
    lemma_settable_bits(Attrs(0));
    assert(settable_bits(0)) by (bit_vector);
    if settable_pen(pen) {
        lemma_params_settable(pen, params, 0);
    }
}

// ---- the answer spells the parameters --------------------------------------------------------------

/// A parameter with its sub-parameters, as it is written.
pub open spec fn spelled(param: Seq<u16>) -> Seq<u8>
    decreases param.len(),
{
    if param.len() == 0 {
        Seq::empty()
    } else if param.len() == 1 {
        decimal(param[0] as nat)
    } else {
        spelled(param.drop_last()) + seq![58u8] + decimal(param.last() as nat)
    }
}

/// Parameters after one that stands there already, as they are written.
pub open spec fn spelled_on(params: Seq<Seq<u16>>) -> Seq<u8>
    decreases params.len(),
{
    if params.len() == 0 {
        Seq::empty()
    } else {
        seq![59u8] + spelled(params[0]) + spelled_on(params.drop_first())
    }
}

proof fn lemma_spelled_first(param: Seq<u16>, rest: Seq<Seq<u16>>)
    ensures
        spelled_on(seq![param] + rest) == seq![59u8] + spelled(param) + spelled_on(rest),
{
    assert((seq![param] + rest).drop_first() =~= rest);
}

proof fn lemma_semicolon()
    ensures
        utf8(";"@) == seq![59u8],
{
    reveal_strlit(";");
    assert(vstd::utf8::is_ascii_chars(";"@));
    vstd::utf8::is_ascii_chars_encode_utf8(";"@);
    assert(utf8(";"@) =~= seq![59u8]);
}

proof fn lemma_digit_text(text: Seq<char>, d: nat)
    requires
        text.len() == 1,
        d < 10,
        text[0] == (48 + d) as char,
    ensures
        utf8(text) == decimal(d),
        spelled(seq![d as u16]) == decimal(d),
{
    assert(vstd::utf8::is_ascii_chars(text));
    vstd::utf8::is_ascii_chars_encode_utf8(text);
    assert(utf8(text) =~= decimal(d));
}

proof fn lemma_code_if(applies: bool, code: Seq<char>, param: Seq<u16>, rest: Seq<Seq<u16>>)
    requires
        utf8(code) == spelled(param),
    ensures
        spelled_on(param_if(applies, param, rest)) == code_if(applies, code) + spelled_on(rest),
{
    reveal(code_if);
    lemma_semicolon();
    if applies {
        lemma_spelled_first(param, rest);
    } else {
        assert(Seq::<u8>::empty() + spelled_on(rest) =~= spelled_on(rest));
    }
}

proof fn lemma_shape_text(text: Seq<char>, d: nat)
    requires
        text.len() == 3,
        text[0] == '4',
        text[1] == ':',
        d < 10,
        text[2] == (48 + d) as char,
    ensures
        utf8(text) == spelled(seq![4u16, d as u16]),
{
    assert(vstd::utf8::is_ascii_chars(text));
    vstd::utf8::is_ascii_chars_encode_utf8(text);
    let param = seq![4u16, d as u16];
    assert(param.drop_last() =~= seq![4u16]);
    assert(spelled(param.drop_last()) == decimal(4));
    assert(utf8(text) =~= decimal(4) + seq![58u8] + decimal(d));
}

proof fn lemma_underline_text(style: UnderlineStyle)
    ensures
        utf8(underline_code(style)) == spelled(underline_param(style)),
{
    reveal_strlit("4");
    reveal_strlit("4:2");
    reveal_strlit("4:3");
    reveal_strlit("4:4");
    reveal_strlit("4:5");
    match style {
        UnderlineStyle::Single => lemma_digit_text("4"@, 4),
        UnderlineStyle::Double => lemma_shape_text("4:2"@, 2),
        UnderlineStyle::Curly => lemma_shape_text("4:3"@, 3),
        UnderlineStyle::Dotted => lemma_shape_text("4:4"@, 4),
        UnderlineStyle::Dashed => lemma_shape_text("4:5"@, 5),
    }
}

/// Regrouping.
proof fn lemma_group(a: Seq<u8>, b: Seq<u8>, c: Seq<u8>)
    ensures
        a + (b + c) == (a + b) + c,
{
    assert(a + (b + c) =~= (a + b) + c);
}

proof fn lemma_attr_text(a: Attrs, rest: Seq<Seq<u16>>)
    ensures
        spelled_on(attr_params(a, rest)) == attr_codes(a) + spelled_on(rest),
{
    reveal_strlit("1");
    reveal_strlit("2");
    reveal_strlit("3");
    reveal_strlit("7");
    reveal_strlit("8");
    reveal_strlit("9");
    lemma_digit_text("1"@, 1);
    lemma_digit_text("2"@, 2);
    lemma_digit_text("3"@, 3);
    lemma_digit_text("7"@, 7);
    lemma_digit_text("8"@, 8);
    lemma_digit_text("9"@, 9);
    lemma_underline_text(a.style());
    let r7 = param_if(a.has(Attrs::strike()), seq![9], rest);
    let r6 = param_if(a.has(Attrs::hidden()), seq![8], r7);
    let r5 = param_if(a.has(Attrs::reverse()), seq![7], r6);
    let r4 = param_if(a.has(Attrs::underline()), underline_param(a.style()), r5);
    let r3 = param_if(a.has(Attrs::italic()), seq![3], r4);
    let r2 = param_if(a.has(Attrs::dim()), seq![2], r3);
    let c1 = code_if(a.has(Attrs::bold()), "1"@);
    let c2 = code_if(a.has(Attrs::dim()), "2"@);
    let c3 = code_if(a.has(Attrs::italic()), "3"@);
    let c4 = code_if(a.has(Attrs::underline()), underline_code(a.style()));
    let c5 = code_if(a.has(Attrs::reverse()), "7"@);
    let c6 = code_if(a.has(Attrs::hidden()), "8"@);
    let c7 = code_if(a.has(Attrs::strike()), "9"@);
    lemma_code_if(a.has(Attrs::bold()), "1"@, seq![1], r2);
    lemma_code_if(a.has(Attrs::dim()), "2"@, seq![2], r3);
    lemma_code_if(a.has(Attrs::italic()), "3"@, seq![3], r4);
    lemma_code_if(
        a.has(Attrs::underline()),
        underline_code(a.style()),
        underline_param(a.style()),
        r5,
    );
    lemma_code_if(a.has(Attrs::reverse()), "7"@, seq![7], r6);
    lemma_code_if(a.has(Attrs::hidden()), "8"@, seq![8], r7);
    lemma_code_if(a.has(Attrs::strike()), "9"@, seq![9], rest);
    lemma_group(c1, c2, spelled_on(r3));
    lemma_group(c1 + c2, c3, spelled_on(r4));
    lemma_group(c1 + c2 + c3, c4, spelled_on(r5));
    lemma_group(c1 + c2 + c3 + c4, c5, spelled_on(r6));
    lemma_group(c1 + c2 + c3 + c4 + c5, c6, spelled_on(r7));
    lemma_group(c1 + c2 + c3 + c4 + c5 + c6, c7, spelled_on(rest));
}

proof fn lemma_color_text(c: Color, foreground: bool, rest: Seq<Seq<u16>>)
    ensures
        spelled_on(color_params(c, foreground, rest)) == color_codes(c, foreground) + spelled_on(
            rest,
        ),
{
    let base: int = if foreground {
        30
    } else {
        40
    };
    lemma_semicolon();
    reveal_strlit(";5;");
    reveal_strlit(";2;");
    vstd::utf8::is_ascii_chars_encode_utf8(";5;"@);
    vstd::utf8::is_ascii_chars_encode_utf8(";2;"@);
    assert(utf8(";5;"@) =~= seq![59u8, 53u8, 59u8]);
    assert(utf8(";2;"@) =~= seq![59u8, 50u8, 59u8]);
    let tail = spelled_on(rest);
    match c {
        Color::Default => {
            assert(Seq::<u8>::empty() + tail =~= tail);
        },
        Color::Ansi(i) => {
            let p = if i < 8 {
                (base + i) as u16
            } else {
                (base + 60 + i % 8) as u16
            };
            lemma_spelled_first(seq![p], rest);
        },
        Color::Indexed(i) => {
            let (p, q, n) = (seq![(base + 8) as u16], seq![5u16], seq![i as u16]);
            assert(color_params(c, foreground, rest) =~= seq![p] + (seq![q] + (seq![n] + rest)));
            lemma_spelled_first(p, seq![q] + (seq![n] + rest));
            lemma_spelled_first(q, seq![n] + rest);
            lemma_spelled_first(n, rest);
            let (dp, dn) = (decimal((base + 8) as nat), decimal(i as nat));
            assert(spelled(q) == seq![53u8]);
            assert(seq![59u8] + dp + (seq![59u8] + seq![53u8] + (seq![59u8] + dn + tail))
                =~= seq![59u8] + dp + seq![59u8, 53u8, 59u8] + dn + tail);
        },
        Color::Rgb(r, g, b) => {
            let (p, q) = (seq![(base + 8) as u16], seq![2u16]);
            let (x, y, z) = (seq![r as u16], seq![g as u16], seq![b as u16]);
            assert(color_params(c, foreground, rest) =~= seq![p] + (seq![q] + (seq![x] + (seq![y]
                + (seq![z] + rest)))));
            lemma_spelled_first(p, seq![q] + (seq![x] + (seq![y] + (seq![z] + rest))));
            lemma_spelled_first(q, seq![x] + (seq![y] + (seq![z] + rest)));
            lemma_spelled_first(x, seq![y] + (seq![z] + rest));
            lemma_spelled_first(y, seq![z] + rest);
            lemma_spelled_first(z, rest);
            let dp = decimal((base + 8) as nat);
            let (dx, dy, dz) = (decimal(r as nat), decimal(g as nat), decimal(b as nat));
            assert(spelled(q) == seq![50u8]);
            let blue = seq![59u8] + dz + tail;
            let green = seq![59u8] + dy + blue;
            assert(seq![59u8] + dp + (seq![59u8] + seq![50u8] + (seq![59u8] + dx + green))
                =~= seq![59u8] + dp + seq![59u8, 50u8, 59u8] + dx + green);
            let front = seq![59u8] + dp + seq![59u8, 50u8, 59u8] + dx;
            assert(front + green =~= front + seq![59u8] + dy + blue);
            let more = front + seq![59u8] + dy;
            assert(more + blue =~= more + seq![59u8] + dz + tail);
        },
    }
}

/// The answer about the rendition is a reset and the parameters that set the pen, spelled
/// out: sent back, it reproduces what was asked about.
pub proof fn lemma_rendition_reply(s: ScreenView)
    ensures
        s.setting_reply(utf8("m"@)) == utf8("\x1bP1$r0"@) + spelled_on(pen_params(s.pen)) + utf8(
            "m\x1b\\"@,
        ),
{
    let bg = color_params(s.pen.bg, false, Seq::empty());
    let colors = color_params(s.pen.fg, true, bg);
    lemma_attr_text(s.pen.attrs, colors);
    lemma_color_text(s.pen.fg, true, bg);
    lemma_color_text(s.pen.bg, false, Seq::empty());
    let (head, tail) = (utf8("\x1bP1$r0"@), utf8("m\x1b\\"@));
    let a = attr_codes(s.pen.attrs);
    let (f, b) = (color_codes(s.pen.fg, true), color_codes(s.pen.bg, false));
    assert(b + Seq::<u8>::empty() =~= b);
    assert(head + (a + (f + b)) =~= head + a + f + b);
}

} // verus!
