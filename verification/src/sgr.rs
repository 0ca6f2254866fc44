//! Select Graphic Rendition: the parameters that set the pen.
use vstd::prelude::*;
use crate::attrs::{lemma_narrow_kept, Attrs, UnderlineStyle};
use crate::cell::Pen;
use crate::color::Color;
use crate::screen::{Screen, ScreenView};
use crate::vt::{lead, sub_at, value_at, Params};

verus! {

/// A colour component held to a byte.
pub open spec fn component(v: u16) -> u8 {
    if v > 255 {
        255
    } else {
        v as u8
    }
}

/// The colour an introducer (`38`, `48`, `58`) at parameter `at` asks for, and how many
/// parameters after it belong to it.
///
/// The arguments come as sub-parameters of the introducer, with or without the colour-space
/// slot in front of the channels, or as the parameters that follow. A form that is not
/// recognized owns nothing.
pub open spec fn ext_color(params: Seq<Seq<u16>>, at: int) -> (Option<Color>, int) {
    let param = params[at];
    if param.len() > 1 {
        if param[1] == 5 {
            (Some(Color::Indexed(component(sub_at(param, 2)))), 0)
        } else if param[1] == 2 {
            let base = if param.len() >= 6 {
                3int
            } else {
                2
            };
            (
                Some(
                    Color::Rgb(
                        component(sub_at(param, base)),
                        component(sub_at(param, base + 1)),
                        component(sub_at(param, base + 2)),
                    ),
                ),
                0,
            )
        } else {
            (None, 0)
        }
    } else if params.len() > at + 1 && value_at(params, at + 1) == 5 {
        (Some(Color::Indexed(component(value_at(params, at + 2)))), 2)
    } else if params.len() > at + 1 && value_at(params, at + 1) == 2 {
        (
            Some(
                Color::Rgb(
                    component(value_at(params, at + 2)),
                    component(value_at(params, at + 3)),
                    component(value_at(params, at + 4)),
                ),
            ),
            4,
        )
    } else {
        (None, 0)
    }
}

/// The shape the sub-parameter of an underline asks for; an unknown one is a plain line.
pub open spec fn underline_shape(n: u16) -> UnderlineStyle {
    if n == 2 {
        UnderlineStyle::Double
    } else if n == 3 {
        UnderlineStyle::Curly
    } else if n == 4 {
        UnderlineStyle::Dotted
    } else if n == 5 {
        UnderlineStyle::Dashed
    } else {
        UnderlineStyle::Single
    }
}

/// Attributes without an underline, its shape back to the plain line.
pub open spec fn not_underlined(a: Attrs) -> Attrs {
    a.without(Attrs::underline()).with_style(UnderlineStyle::Single)
}

/// What one parameter makes of the attributes.
pub open spec fn attrs_after(a: Attrs, param: Seq<u16>) -> Attrs {
    let p = lead(param);
    if p == 0 {
        Attrs(0)
    } else if p == 1 {
        a.with(Attrs::bold())
    } else if p == 2 {
        a.with(Attrs::dim())
    } else if p == 3 {
        a.with(Attrs::italic())
    } else if p == 4 {
        if param.len() > 1 && param[1] == 0 {
            not_underlined(a)
        } else {
            a.with(Attrs::underline()).with_style(underline_shape(sub_at(param, 1)))
        }
    } else if p == 7 {
        a.with(Attrs::reverse())
    } else if p == 8 {
        a.with(Attrs::hidden())
    } else if p == 9 {
        a.with(Attrs::strike())
    } else if p == 21 {
        a.without(Attrs::bold())
    } else if p == 22 {
        a.without(Attrs::bold()).without(Attrs::dim())
    } else if p == 23 {
        a.without(Attrs::italic())
    } else if p == 24 {
        not_underlined(a)
    } else if p == 27 {
        a.without(Attrs::reverse())
    } else if p == 28 {
        a.without(Attrs::hidden())
    } else if p == 29 {
        a.without(Attrs::strike())
    } else {
        a
    }
}

/// What the parameter at `at` makes of the foreground.
pub open spec fn fg_after(fg: Color, params: Seq<Seq<u16>>, at: int) -> Color {
    let p = lead(params[at]);
    if p == 0 || p == 39 {
        Color::Default
    } else if 30 <= p <= 37 {
        Color::Ansi((p - 30) as u8)
    } else if 90 <= p <= 97 {
        Color::Ansi((p - 82) as u8)
    } else if p == 38 && ext_color(params, at).0 is Some {
        ext_color(params, at).0->0
    } else {
        fg
    }
}

/// What the parameter at `at` makes of the background.
pub open spec fn bg_after(bg: Color, params: Seq<Seq<u16>>, at: int) -> Color {
    let p = lead(params[at]);
    if p == 0 || p == 49 {
        Color::Default
    } else if 40 <= p <= 47 {
        Color::Ansi((p - 40) as u8)
    } else if 100 <= p <= 107 {
        Color::Ansi((p - 92) as u8)
    } else if p == 48 && ext_color(params, at).0 is Some {
        ext_color(params, at).0->0
    } else {
        bg
    }
}

/// The parameter to go on with after the one at `at`. An introducer owns its arguments
/// whether or not its colour is used.
pub open spec fn sgr_next(params: Seq<Seq<u16>>, at: int) -> int {
    let p = lead(params[at]);
    if p == 38 || p == 48 || p == 58 {
        at + 1 + ext_color(params, at).1
    } else {
        at + 1
    }
}

impl Pen {
    /// The pen after the parameter at `at`. The hyperlink is no part of the rendition.
    pub open spec fn after_param(self, params: Seq<Seq<u16>>, at: int) -> Pen {
        Pen {
            fg: fg_after(self.fg, params, at),
            bg: bg_after(self.bg, params, at),
            attrs: attrs_after(self.attrs, params[at]),
            link: self.link,
        }
    }

    /// The pen after the parameters from `at` on.
    pub open spec fn after_params(self, params: Seq<Seq<u16>>, at: int) -> Pen
        decreases
            if at < params.len() {
                params.len() - at
            } else {
                0
            },
    {
        if at < 0 || at >= params.len() {
            self
        } else {
            self.after_param(params, at).after_params(params, sgr_next(params, at))
        }
    }

    /// The pen after a whole rendition; none at all is a reset.
    pub open spec fn rendered(self, params: Seq<Seq<u16>>) -> Pen {
        if params.len() == 0 {
            self.reset()
        } else {
            self.after_params(params, 0)
        }
    }
}

fn sgr_component(v: u16) -> (r: u8)
    ensures
        r == component(v),
{
    if v > 255 {
        255
    } else {
        v as u8
    }
}

fn sub_value(param: &[u16], i: usize) -> (r: u16)
    ensures
        r == sub_at(param@, i as int),
{
    if i < param.len() {
        param[i]
    } else {
        0
    }
}

/// Parse the extended-colour introducer at parameter `at`: the colour, and how many extra
/// parameters it consumed.
pub fn parse_ext_color(params: &Params, at: usize) -> (r: (Option<Color>, usize))
    requires
        at < params@.len(),
    ensures
        r.0 == ext_color(params@, at as int).0,
        r.1 == ext_color(params@, at as int).1,
{
    if let Some(param) = params.get(at) {
        if param.len() > 1 {
            return match param[1] {
                5 => (Some(Color::Indexed(sgr_component(sub_value(param, 2)))), 0),
                2 => {
                    let base: usize = if param.len() >= 6 {
                        3
                    } else {
                        2
                    };
                    let r = sgr_component(sub_value(param, base));
                    let g = sgr_component(sub_value(param, base + 1));
                    let b = sgr_component(sub_value(param, base + 2));
                    (Some(Color::Rgb(r, g, b)), 0)
                },
                _ => (None, 0),
            };
        }
    }
    if params.len() - at < 2 {
        return (None, 0);
    }
    match params.value(at + 1) {
        5 => (Some(Color::Indexed(sgr_component(later(params, at, 2)))), 2),
        2 => {
            let r = sgr_component(later(params, at, 2));
            let g = sgr_component(later(params, at, 3));
            let b = sgr_component(later(params, at, 4));
            (Some(Color::Rgb(r, g, b)), 4)
        },
        _ => (None, 0),
    }
}

/// The leading value of the parameter `n` after `at`.
fn later(params: &Params, at: usize, n: usize) -> (r: u16)
    requires
        at < params@.len(),
    ensures
        r == value_at(params@, at + n),
{
    if n < params.len() - at {
        params.value(at + n)
    } else {
        0
    }
}

fn set_underline(attrs: &mut Attrs, sub: Option<u16>)
    ensures
        *final(attrs) == (if sub == Some(0u16) {
            not_underlined(*old(attrs))
        } else {
            old(attrs).with(Attrs::underline()).with_style(
                underline_shape(
                    if sub is Some {
                        sub->0
                    } else {
                        0
                    },
                ),
            )
        }),
{
    match sub {
        Some(0) => {
            attrs.remove(Attrs::underline());
            attrs.set_underline_style(UnderlineStyle::Single);
        },
        style => {
            let shape = match style {
                Some(2) => UnderlineStyle::Double,
                Some(3) => UnderlineStyle::Curly,
                Some(4) => UnderlineStyle::Dotted,
                Some(5) => UnderlineStyle::Dashed,
                _ => UnderlineStyle::Single,
            };
            attrs.insert(Attrs::underline());
            attrs.set_underline_style(shape);
        },
    }
}

impl Pen {
    /// Apply the attribute one parameter sets or clears.
    fn apply_attrs(&mut self, param: &[u16])
        ensures
            *final(self) == (Pen { attrs: attrs_after(old(self).attrs, param@), ..*old(self) }),
    {
        let p: u16 = sub_value(param, 0);
        match p {
            0 => self.attrs = Attrs::empty(),
            1 => self.attrs.insert(Attrs::bold()),
            2 => self.attrs.insert(Attrs::dim()),
            3 => self.attrs.insert(Attrs::italic()),
            4 => {
                let sub: Option<u16> = if param.len() > 1 {
                    Some(param[1])
                } else {
                    None
                };
                set_underline(&mut self.attrs, sub);
            },
            7 => self.attrs.insert(Attrs::reverse()),
            8 => self.attrs.insert(Attrs::hidden()),
            9 => self.attrs.insert(Attrs::strike()),
            21 => self.attrs.remove(Attrs::bold()),
            22 => {
                self.attrs.remove(Attrs::bold());
                self.attrs.remove(Attrs::dim());
            },
            23 => self.attrs.remove(Attrs::italic()),
            24 => set_underline(&mut self.attrs, Some(0)),
            27 => self.attrs.remove(Attrs::reverse()),
            28 => self.attrs.remove(Attrs::hidden()),
            29 => self.attrs.remove(Attrs::strike()),
            _ => {},
        }
    }

    /// Apply the parameter at `at`, and say which one to go on with.
    fn apply_param(&mut self, params: &Params, at: usize) -> (next: usize)
        requires
            at < params@.len(),
        ensures
            *final(self) == old(self).after_param(params@, at as int),
            next > at,
            next == sgr_next(params@, at as int) || (next >= params@.len() && sgr_next(
                params@,
                at as int,
            ) >= params@.len()),
    {
        assert(at < params.items.len());
        if let Some(param) = params.get(at) {
            self.apply_attrs(param);
        }
        let p: u16 = params.value(at);
        match p {
            0 => {
                self.fg = Color::Default;
                self.bg = Color::Default;
            },
            39 => self.fg = Color::Default,
            49 => self.bg = Color::Default,
            38 => {
                let (color, extra) = parse_ext_color(params, at);
                if let Some(color) = color {
                    self.fg = color;
                }
                return (at + 1).saturating_add(extra);
            },
            48 => {
                let (color, extra) = parse_ext_color(params, at);
                if let Some(color) = color {
                    self.bg = color;
                }
                return (at + 1).saturating_add(extra);
            },
            // An underline colour: a cell has nowhere to put it, but its arguments are its
            // own all the same.
            58 => {
                let (_, extra) = parse_ext_color(params, at);
                return (at + 1).saturating_add(extra);
            },
            _ => {
                if 30 <= p && p <= 37 {
                    self.fg = Color::Ansi((p - 30) as u8);
                } else if 40 <= p && p <= 47 {
                    self.bg = Color::Ansi((p - 40) as u8);
                } else if 90 <= p && p <= 97 {
                    self.fg = Color::Ansi((p - 82) as u8);
                } else if 100 <= p && p <= 107 {
                    self.bg = Color::Ansi((p - 92) as u8);
                }
            },
        }
        at + 1
    }
}

/// A parameter never marks the pen wide.
proof fn lemma_after_param_wf(pen: Pen, params: Seq<Seq<u16>>, at: int)
    requires
        pen.wf(),
    ensures
        pen.after_param(params, at).wf(),
{
    let a = pen.attrs;
    let param = params[at];
    let style = underline_shape(sub_at(param, 1));
    let plain = UnderlineStyle::Single;
    assert(1u16 & 0x0180 == 0 && 2u16 & 0x0180 == 0 && 4u16 & 0x0180 == 0 && 8u16 & 0x0180 == 0
        && 16u16 & 0x0180 == 0 && 32u16 & 0x0180 == 0 && 64u16 & 0x0180 == 0 && 0u16 & 0x0180
        == 0) by (bit_vector);
    lemma_narrow_kept(a, Attrs::bold(), plain);
    lemma_narrow_kept(a, Attrs::dim(), plain);
    lemma_narrow_kept(a, Attrs::italic(), plain);
    lemma_narrow_kept(a, Attrs::underline(), plain);
    lemma_narrow_kept(a, Attrs::reverse(), plain);
    lemma_narrow_kept(a, Attrs::strike(), plain);
    lemma_narrow_kept(a, Attrs::hidden(), plain);
    lemma_narrow_kept(a.without(Attrs::bold()), Attrs::dim(), plain);
    lemma_narrow_kept(a.with(Attrs::underline()), Attrs::underline(), style);
    lemma_narrow_kept(a.without(Attrs::underline()), Attrs::underline(), plain);
}

impl Screen {
    /// Apply an SGR sequence, updating the pen. An empty parameter list is a reset.
    ///
    /// Whatever is not implemented is consumed, then ignored: an extended-colour introducer
    /// owns the parameters that follow it, and reading them as codes of their own would set
    /// renditions nobody asked for.
    pub fn sgr(&mut self, params: &Params)
        requires
            old(self).wf(),
        ensures
            final(self)@ == (ScreenView { pen: old(self)@.pen.rendered(params@), ..old(self)@ }),
            final(self).wf(),
    {
        if params.is_empty() {
            self.pen.reset_rendition();
            proof {
                crate::attrs::lemma_wide_bits(self.pen.attrs);
            }
            return;
        }
        let ghost start = self@;
        let mut i: usize = 0;
        while i < params.len()
            invariant
                self.wf(),
                self@ == (ScreenView { pen: self.pen, ..start }),
                self.pen.after_params(params@, i as int) == start.pen.after_params(params@, 0),
            decreases
                if i < params@.len() {
                    params@.len() - i
                } else {
                    0
                },
        {
            let mut pen = self.pen;
            let next = pen.apply_param(params, i);
            proof {
                lemma_after_param_wf(self.pen, params@, i as int);
                let on = sgr_next(params@, i as int);
                assert(self.pen.after_params(params@, i as int) == pen.after_params(params@, on));
                assert(pen.after_params(params@, next as int) == pen.after_params(params@, on));
            }
            self.pen = pen;
            i = next;
        }
    }
}

/// A rendition never touches the hyperlink, so a reset inside an anchor does not close it.
pub proof fn lemma_rendition_keeps_the_link(pen: Pen, params: Seq<Seq<u16>>)
    ensures
        pen.rendered(params).link == pen.link,
{
    lemma_params_keep_the_link(pen, params, 0);
}

proof fn lemma_params_keep_the_link(pen: Pen, params: Seq<Seq<u16>>, at: int)
    ensures
        pen.after_params(params, at).link == pen.link,
    decreases
        if at < params.len() {
            params.len() - at
        } else {
            0
        },
{
    if 0 <= at < params.len() {
        lemma_params_keep_the_link(pen.after_param(params, at), params, sgr_next(params, at));
    }
}

} // verus!
