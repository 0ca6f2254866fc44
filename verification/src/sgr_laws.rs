//! What each rendition parameter does to a pen, field by field and bit by bit, and how the
//! parameters of one sequence follow each other.
use vstd::prelude::*;
use crate::attrs::Attrs;
use crate::cell::Pen;
use crate::color::Color;
use crate::sgr::sgr_next;
use crate::vt::{lead, value_at};

verus! {

/// A rendition of one parameter is what that parameter does.
proof fn lemma_single(p: Pen, param: Seq<u16>)
    ensures
        p.rendered(seq![param]) == p.after_param(seq![param], 0),
{
    let params = seq![param];
    assert(sgr_next(params, 0) >= 1);
    assert(p.after_param(params, 0).after_params(params, sgr_next(params, 0)) == p.after_param(
        params,
        0,
    ));
}

/// How a bit mask comes off and goes on, for every mask the renditions use.
proof fn lemma_masks(x: u16)
    ensures
        (x & !1u16) & !2u16 == x & !3u16,
        ((x & !8u16) & !0x0e00u16) | (0u16 << 9u16) == x & !0x0e08u16,
        ((x | 8) & !0x0e00u16) | (0u16 << 9u16) == (x & !0x0e00u16) | 8,
        ((x | 8) & !0x0e00u16) | (1u16 << 9u16) == (x & !0x0e00u16) | 0x208,
        ((x | 8) & !0x0e00u16) | (2u16 << 9u16) == (x & !0x0e00u16) | 0x408,
        ((x | 8) & !0x0e00u16) | (3u16 << 9u16) == (x & !0x0e00u16) | 0x608,
        ((x | 8) & !0x0e00u16) | (4u16 << 9u16) == (x & !0x0e00u16) | 0x808,
{
    assert((x & !1u16) & !2u16 == x & !3u16 && ((x & !8u16) & !0x0e00u16) | (0u16 << 9u16) == x
        & !0x0e08u16 && ((x | 8) & !0x0e00u16) | (0u16 << 9u16) == (x & !0x0e00u16) | 8 && ((x | 8)
        & !0x0e00u16) | (1u16 << 9u16) == (x & !0x0e00u16) | 0x208 && ((x | 8) & !0x0e00u16) | (2u16
        << 9u16) == (x & !0x0e00u16) | 0x408 && ((x | 8) & !0x0e00u16) | (3u16 << 9u16) == (x
        & !0x0e00u16) | 0x608 && ((x | 8) & !0x0e00u16) | (4u16 << 9u16) == (x & !0x0e00u16)
        | 0x808) by (bit_vector);
}

/// The default colours: 39 takes back the foreground and 49 the background, each of them that
/// and nothing else.
pub proof fn lemma_default_colors(p: Pen)
    ensures
        p.rendered(seq![seq![39u16]]) == (Pen { fg: Color::Default, ..p }),
        p.rendered(seq![seq![49u16]]) == (Pen { bg: Color::Default, ..p }),
{
    lemma_single(p, seq![39u16]);
    lemma_single(p, seq![49u16]);
    assert(seq![seq![39u16]][0] == seq![39u16] && seq![39u16][0] == 39);
    assert(seq![seq![49u16]][0] == seq![49u16] && seq![49u16][0] == 49);
}

/// Clearing codes take off exactly the bits of the attributes they name: bold and dim by 22,
/// bold alone by 21, italic by 23, the underline with its shape by 24, reverse by 27, hidden
/// by 28 and strike by 29. Every other bit, the colours and the link stay.
pub proof fn lemma_clearing_codes(p: Pen)
    ensures
        p.rendered(seq![seq![21u16]]) == (Pen { attrs: Attrs(p.attrs.0 & !1u16), ..p }),
        p.rendered(seq![seq![22u16]]) == (Pen { attrs: Attrs(p.attrs.0 & !3u16), ..p }),
        p.rendered(seq![seq![23u16]]) == (Pen { attrs: Attrs(p.attrs.0 & !4u16), ..p }),
        p.rendered(seq![seq![24u16]]) == (Pen { attrs: Attrs(p.attrs.0 & !0x0e08u16), ..p }),
        p.rendered(seq![seq![27u16]]) == (Pen { attrs: Attrs(p.attrs.0 & !16u16), ..p }),
        p.rendered(seq![seq![28u16]]) == (Pen { attrs: Attrs(p.attrs.0 & !64u16), ..p }),
        p.rendered(seq![seq![29u16]]) == (Pen { attrs: Attrs(p.attrs.0 & !32u16), ..p }),
{
    lemma_masks(p.attrs.0);
    assert forall|n: u16| 21 <= n <= 29 implies p.rendered(#[trigger] seq![seq![n]])
        == p.after_param(seq![seq![n]], 0) && lead(seq![seq![n]][0]) == n by {
        lemma_single(p, seq![n]);
    }
}

/// The flags the clearing codes name are off afterwards, and a flag they do not name is as it
/// was.
pub proof fn lemma_clearing_flags(p: Pen, n: u16)
    requires
        n == 22 || n == 23 || n == 24 || n == 27 || n == 28 || n == 29,
    ensures
        ({
            let a = p.rendered(seq![seq![n]]).attrs;
            &&& a.has(Attrs::bold()) == (n != 22 && p.attrs.has(Attrs::bold()))
            &&& a.has(Attrs::dim()) == (n != 22 && p.attrs.has(Attrs::dim()))
            &&& a.has(Attrs::italic()) == (n != 23 && p.attrs.has(Attrs::italic()))
            &&& a.has(Attrs::underline()) == (n != 24 && p.attrs.has(Attrs::underline()))
            &&& a.has(Attrs::reverse()) == (n != 27 && p.attrs.has(Attrs::reverse()))
            &&& a.has(Attrs::hidden()) == (n != 28 && p.attrs.has(Attrs::hidden()))
            &&& a.has(Attrs::strike()) == (n != 29 && p.attrs.has(Attrs::strike()))
        }),
{
    lemma_clearing_codes(p);
    let x = p.attrs.0;
    assert(forall|m: u16, f: u16|
        #![trigger (x & !m) & f]
        ((m & f == 0 ==> (x & !m) & f == x & f) && (m & f == f && f != 0 ==> (x & !m) & f != f)))
        by (bit_vector);
    assert(3u16 & 1 == 1 && 3u16 & 2 == 2 && 3u16 & 4 == 0 && 3u16 & 8 == 0 && 3u16 & 16 == 0
        && 3u16 & 32 == 0 && 3u16 & 64 == 0 && 0x0e08u16 & 8 == 8 && 0x0e08u16 & 1 == 0 && 0x0e08u16
        & 2 == 0 && 0x0e08u16 & 4 == 0 && 0x0e08u16 & 16 == 0 && 0x0e08u16 & 32 == 0 && 0x0e08u16
        & 64 == 0 && 4u16 & 1 == 0 && 4u16 & 2 == 0 && 4u16 & 4 == 4 && 4u16 & 8 == 0 && 4u16 & 16
        == 0 && 4u16 & 32 == 0 && 4u16 & 64 == 0 && 16u16 & 1 == 0 && 16u16 & 2 == 0 && 16u16 & 4
        == 0 && 16u16 & 8 == 0 && 16u16 & 16 == 16 && 16u16 & 32 == 0 && 16u16 & 64 == 0 && 64u16
        & 1 == 0 && 64u16 & 2 == 0 && 64u16 & 4 == 0 && 64u16 & 8 == 0 && 64u16 & 16 == 0 && 64u16
        & 32 == 0 && 64u16 & 64 == 64 && 32u16 & 1 == 0 && 32u16 & 2 == 0 && 32u16 & 4 == 0 && 32u16
        & 8 == 0 && 32u16 & 16 == 0 && 32u16 & 32 == 32 && 32u16 & 64 == 0) by (bit_vector);
}

/// Setting codes put on exactly the bit of the attribute they name: 1 bold, 2 dim, 3 italic,
/// 7 reverse, 8 hidden, 9 strike.
pub proof fn lemma_setting_codes(p: Pen)
    ensures
        p.rendered(seq![seq![1u16]]) == (Pen { attrs: Attrs(p.attrs.0 | 1), ..p }),
        p.rendered(seq![seq![2u16]]) == (Pen { attrs: Attrs(p.attrs.0 | 2), ..p }),
        p.rendered(seq![seq![3u16]]) == (Pen { attrs: Attrs(p.attrs.0 | 4), ..p }),
        p.rendered(seq![seq![7u16]]) == (Pen { attrs: Attrs(p.attrs.0 | 16), ..p }),
        p.rendered(seq![seq![8u16]]) == (Pen { attrs: Attrs(p.attrs.0 | 64), ..p }),
        p.rendered(seq![seq![9u16]]) == (Pen { attrs: Attrs(p.attrs.0 | 32), ..p }),
{
    assert forall|n: u16| 1 <= n <= 9 implies p.rendered(#[trigger] seq![seq![n]])
        == p.after_param(seq![seq![n]], 0) && lead(seq![seq![n]][0]) == n by {
        lemma_single(p, seq![n]);
    }
}

/// The underline: a bare 4 draws the plain line, 4 with a zero takes it off, 2 to 5 choose a
/// shape, and any other shape is the plain line.
pub proof fn lemma_underline_codes(p: Pen, k: u16)
    ensures
        p.rendered(seq![seq![4u16]]) == (Pen { attrs: Attrs((p.attrs.0 & !0x0e00u16) | 8), ..p }),
        p.rendered(seq![seq![4u16, k]]) == (Pen {
            attrs: Attrs(
                if k == 0 {
                    p.attrs.0 & !0x0e08u16
                } else if k == 2 {
                    (p.attrs.0 & !0x0e00u16) | 0x208
                } else if k == 3 {
                    (p.attrs.0 & !0x0e00u16) | 0x408
                } else if k == 4 {
                    (p.attrs.0 & !0x0e00u16) | 0x608
                } else if k == 5 {
                    (p.attrs.0 & !0x0e00u16) | 0x808
                } else {
                    (p.attrs.0 & !0x0e00u16) | 8
                },
            ),
            ..p
        }),
{
    lemma_masks(p.attrs.0);
    lemma_single(p, seq![4u16]);
    lemma_single(p, seq![4u16, k]);
    assert(seq![seq![4u16]][0] == seq![4u16] && seq![4u16][0] == 4);
    assert(seq![seq![4u16, k]][0] == seq![4u16, k] && seq![4u16, k][0] == 4 && seq![4u16, k][1]
        == k);
}

/// The sixteen named colours: eight from 30 and 40 on, the bright eight from 90 and 100 on.
pub proof fn lemma_named_colors(p: Pen, i: u8)
    requires
        i < 8,
    ensures
        p.rendered(seq![seq![(30 + i) as u16]]) == (Pen { fg: Color::Ansi(i), ..p }),
        p.rendered(seq![seq![(40 + i) as u16]]) == (Pen { bg: Color::Ansi(i), ..p }),
        p.rendered(seq![seq![(90 + i) as u16]]) == (Pen { fg: Color::Ansi((8 + i) as u8), ..p }),
        p.rendered(seq![seq![(100 + i) as u16]]) == (Pen { bg: Color::Ansi((8 + i) as u8), ..p }),
{
    assert forall|n: u16| p.rendered(#[trigger] seq![seq![n]]) == p.after_param(seq![seq![n]], 0)
        && lead(seq![seq![n]][0]) == n by {
        lemma_single(p, seq![n]);
    }
    assert(seq![seq![(30 + i) as u16]].len() == 1 && seq![seq![(40 + i) as u16]].len() == 1
        && seq![seq![(90 + i) as u16]].len() == 1 && seq![seq![(100 + i) as u16]].len() == 1);
}

/// No parameters, and a zero, reset everything but the link; a number that is no rendition
/// changes nothing.
pub proof fn lemma_resets_and_unknowns(p: Pen, n: u16)
    requires
        n == 5 || n == 6 || 10 <= n <= 20 || n == 25 || n == 26 || 50 <= n <= 57 || 59 <= n <= 89
            || n >= 108,
    ensures
        ({
            let bare = Pen {
                fg: Color::Default,
                bg: Color::Default,
                attrs: Attrs(0),
                link: p.link,
            };
            &&& p.rendered(Seq::empty()) == bare
            &&& p.rendered(seq![seq![0u16]]) == bare
            &&& p.rendered(seq![Seq::<u16>::empty()]) == bare
        }),
        p.rendered(seq![seq![n]]) == p,
{
    lemma_single(p, seq![0u16]);
    lemma_single(p, Seq::<u16>::empty());
    lemma_single(p, seq![n]);
    assert(lead(seq![seq![0u16]][0]) == 0);
    assert(lead(seq![Seq::<u16>::empty()][0]) == 0);
    assert(lead(seq![seq![n]][0]) == n);
}

/// A colour component is held at 255.
pub open spec fn held(v: u16) -> u8 {
    if v <= 255 {
        v as u8
    } else {
        255
    }
}

/// The extended colours in the form with colons: indexed, direct, and direct with a colour
/// space in between. 38 is the foreground, 48 the background, and 58 neither.
pub proof fn lemma_colon_colors(p: Pen, n: u16, r: u16, g: u16, b: u16, space: u16)
    ensures
        p.rendered(seq![seq![38u16, 5, n]]) == (Pen { fg: Color::Indexed(held(n)), ..p }),
        p.rendered(seq![seq![48u16, 5, n]]) == (Pen { bg: Color::Indexed(held(n)), ..p }),
        p.rendered(seq![seq![58u16, 5, n]]) == p,
        p.rendered(seq![seq![38u16, 2, r, g, b]]) == (Pen {
            fg: Color::Rgb(held(r), held(g), held(b)),
            ..p
        }),
        p.rendered(seq![seq![48u16, 2, r, g, b]]) == (Pen {
            bg: Color::Rgb(held(r), held(g), held(b)),
            ..p
        }),
        p.rendered(seq![seq![38u16, 2, space, r, g, b]]) == (Pen {
            fg: Color::Rgb(held(r), held(g), held(b)),
            ..p
        }),
        p.rendered(seq![seq![48u16, 2, space, r, g, b]]) == (Pen {
            bg: Color::Rgb(held(r), held(g), held(b)),
            ..p
        }),
        p.rendered(seq![seq![58u16, 2, space, r, g, b]]) == p,
{
    assert forall|q: Seq<u16>| p.rendered(#[trigger] seq![q]) == p.after_param(seq![q], 0)
        && seq![q][0] == q by {
        lemma_single(p, q);
    }
    let a = seq![38u16, 5, n];
    assert(a.len() == 3 && a[0] == 38 && a[1] == 5 && a[2] == n);
    let a = seq![48u16, 5, n];
    assert(a.len() == 3 && a[0] == 48 && a[1] == 5 && a[2] == n);
    let a = seq![58u16, 5, n];
    assert(a.len() == 3 && a[0] == 58);
    let a = seq![38u16, 2, r, g, b];
    assert(a.len() == 5 && a[0] == 38 && a[1] == 2 && a[2] == r && a[3] == g && a[4] == b);
    let a = seq![48u16, 2, r, g, b];
    assert(a.len() == 5 && a[0] == 48 && a[1] == 2 && a[2] == r && a[3] == g && a[4] == b);
    let a = seq![38u16, 2, space, r, g, b];
    assert(a.len() == 6 && a[0] == 38 && a[1] == 2 && a[3] == r && a[4] == g && a[5] == b);
    let a = seq![48u16, 2, space, r, g, b];
    assert(a.len() == 6 && a[0] == 48 && a[1] == 2 && a[3] == r && a[4] == g && a[5] == b);
    let a = seq![58u16, 2, space, r, g, b];
    assert(a.len() == 6 && a[0] == 58);
}

/// Whether what a parameter means does not reach into the ones behind it: any but the
/// introducer of an extended colour without sub-parameters.
pub open spec fn stands_alone(param: Seq<u16>) -> bool {
    param.len() > 1 || param.len() == 0 || (param[0] != 38 && param[0] != 48 && param[0] != 58)
}

/// Parameters that stand alone act one after the other: a sequence of them and of others
/// behind is the first rendition and then the second.
pub proof fn lemma_renditions_follow(p: Pen, a: Seq<Seq<u16>>, b: Seq<Seq<u16>>)
    requires
        a.len() > 0,
        b.len() > 0,
        forall|i: int| 0 <= i < a.len() ==> stands_alone(#[trigger] a[i]),
    ensures
        p.rendered(a + b) == p.rendered(a).rendered(b),
{
    lemma_alone_from(p, a, b, 0);
}

proof fn lemma_alone_from(p: Pen, a: Seq<Seq<u16>>, b: Seq<Seq<u16>>, at: int)
    requires
        0 <= at <= a.len(),
        forall|i: int| 0 <= i < a.len() ==> stands_alone(#[trigger] a[i]),
    ensures
        p.after_params(a + b, at) == p.after_params(a, at).after_params(b, 0),
    decreases a.len() - at,
{
    let all = a + b;
    if at == a.len() {
        lemma_behind(p, a, b, 0);
    } else {
        assert(all[at] == a[at]);
        assert(stands_alone(a[at]));
        assert(p.after_param(all, at) == p.after_param(a, at));
        assert(sgr_next(all, at) == at + 1 && sgr_next(a, at) == at + 1);
        lemma_alone_from(p.after_param(a, at), a, b, at + 1);
    }
}

/// What parameters mean does not depend on those before them.
proof fn lemma_behind(p: Pen, a: Seq<Seq<u16>>, b: Seq<Seq<u16>>, k: int)
    requires
        0 <= k,
    ensures
        p.after_params(a + b, a.len() + k) == p.after_params(b, k),
    decreases
            if k < b.len() {
                b.len() - k
            } else {
                0
            },
{
    let all = a + b;
    let at = a.len() + k;
    if k < b.len() {
        assert(all[at] == b[k]);
        assert forall|j: int| 0 <= j implies #[trigger] value_at(all, at + j) == value_at(
            b,
            k + j,
        ) by {
            if k + j < b.len() {
                assert(all[a.len() + (k + j)] == b[k + j]);
            }
        }
        assert(value_at(all, at + 1) == value_at(b, k + 1));
        assert(value_at(all, at + 2) == value_at(b, k + 2));
        assert(value_at(all, at + 3) == value_at(b, k + 3));
        assert(value_at(all, at + 4) == value_at(b, k + 4));
        let next = sgr_next(b, k);
        assert(sgr_next(all, at) == a.len() + next);
        lemma_behind(p.after_param(b, k), a, b, next);
    }
}

/// The extended colours in the form with semicolons own the parameters behind them, and what
/// follows those goes on as if it stood alone.
pub proof fn lemma_semicolon_colors(
    p: Pen,
    n: u16,
    r: u16,
    g: u16,
    b: u16,
    rest: Seq<Seq<u16>>,
)
    requires
        rest.len() > 0,
    ensures
        p.rendered(seq![seq![38u16], seq![5u16], seq![n]] + rest) == (Pen {
            fg: Color::Indexed(held(n)),
            ..p
        }).rendered(rest),
        p.rendered(seq![seq![48u16], seq![5u16], seq![n]] + rest) == (Pen {
            bg: Color::Indexed(held(n)),
            ..p
        }).rendered(rest),
        p.rendered(seq![seq![58u16], seq![5u16], seq![n]] + rest) == p.rendered(rest),
        p.rendered(seq![seq![38u16], seq![2u16], seq![r], seq![g], seq![b]] + rest) == (Pen {
            fg: Color::Rgb(held(r), held(g), held(b)),
            ..p
        }).rendered(rest),
        p.rendered(seq![seq![48u16], seq![2u16], seq![r], seq![g], seq![b]] + rest) == (Pen {
            bg: Color::Rgb(held(r), held(g), held(b)),
            ..p
        }).rendered(rest),
        p.rendered(seq![seq![58u16], seq![2u16], seq![r], seq![g], seq![b]] + rest) == p.rendered(
            rest,
        ),
{
    lemma_semicolon_indexed(p, 38, n, rest);
    lemma_semicolon_indexed(p, 48, n, rest);
    lemma_semicolon_indexed(p, 58, n, rest);
    lemma_semicolon_direct(p, 38, r, g, b, rest);
    lemma_semicolon_direct(p, 48, r, g, b, rest);
    lemma_semicolon_direct(p, 58, r, g, b, rest);
}

proof fn lemma_semicolon_indexed(p: Pen, lead_by: u16, n: u16, rest: Seq<Seq<u16>>)
    requires
        rest.len() > 0,
        lead_by == 38 || lead_by == 48 || lead_by == 58,
    ensures
        p.rendered(seq![seq![lead_by], seq![5u16], seq![n]] + rest) == (Pen {
            fg: if lead_by == 38 {
                Color::Indexed(held(n))
            } else {
                p.fg
            },
            bg: if lead_by == 48 {
                Color::Indexed(held(n))
            } else {
                p.bg
            },
            ..p
        }).rendered(rest),
{
    let a = seq![seq![lead_by], seq![5u16], seq![n]];
    let all = a + rest;
    assert(all[0] == a[0] && all[1] == a[1] && all[2] == a[2]);
    assert(all[0][0] == lead_by && all[1][0] == 5 && all[2][0] == n);
    let q = p.after_param(all, 0);
    assert(sgr_next(all, 0) == 3);
    lemma_behind(q, a, rest, 0);
}

proof fn lemma_semicolon_direct(
    p: Pen,
    lead_by: u16,
    r: u16,
    g: u16,
    b: u16,
    rest: Seq<Seq<u16>>,
)
    requires
        rest.len() > 0,
        lead_by == 38 || lead_by == 48 || lead_by == 58,
    ensures
        p.rendered(seq![seq![lead_by], seq![2u16], seq![r], seq![g], seq![b]] + rest) == (Pen {
            fg: if lead_by == 38 {
                Color::Rgb(held(r), held(g), held(b))
            } else {
                p.fg
            },
            bg: if lead_by == 48 {
                Color::Rgb(held(r), held(g), held(b))
            } else {
                p.bg
            },
            ..p
        }).rendered(rest),
{
    let a = seq![seq![lead_by], seq![2u16], seq![r], seq![g], seq![b]];
    let all = a + rest;
    assert(all[0] == a[0] && all[1] == a[1] && all[2] == a[2] && all[3] == a[3] && all[4] == a[4]);
    assert(all[0][0] == lead_by && all[1][0] == 2 && all[2][0] == r && all[3][0] == g && all[4][0]
        == b);
    let q = p.after_param(all, 0);
    assert(sgr_next(all, 0) == 5);
    lemma_behind(q, a, rest, 0);
}

} // verus!
