//! The questions a program asks and the keyboard protocols it negotiates: settings,
//! capabilities, the version, and the kitty and xterm keyboard modes.
use vstd::prelude::*;
use crate::attrs::{Attrs, UnderlineStyle};
use crate::codec::{hex_decode, hex_decoded, hex_encode, hex_encoded};
use crate::color::Color;
use crate::fields::{fields, fields_view, split_fields};
use crate::input::{KittyFlags, ModifyOtherKeys};
use crate::osc::is_text;
use crate::screen::{Screen, ScreenView, KITTY_STACK_LIMIT};
use crate::text::{decimal, push_decimal, utf8, write_text};
use crate::vt::{value_at, Params};

verus! {

/// The version a program is told.
pub const VERSION: &'static str = "0.1.0";

/// The parameter that sets an underline of this shape. The plain line is `4`, which is what
/// everything has always written.
pub open spec fn underline_code(style: UnderlineStyle) -> Seq<char> {
    match style {
        UnderlineStyle::Single => "4"@,
        UnderlineStyle::Double => "4:2"@,
        UnderlineStyle::Curly => "4:3"@,
        UnderlineStyle::Dotted => "4:4"@,
        UnderlineStyle::Dashed => "4:5"@,
    }
}

/// One more parameter, where it applies.
#[verifier::opaque]
pub open spec fn code_if(applies: bool, code: Seq<char>) -> Seq<u8> {
    if applies {
        utf8(";"@) + utf8(code)
    } else {
        Seq::empty()
    }
}

/// The parameters that set these attributes.
pub open spec fn attr_codes(a: Attrs) -> Seq<u8> {
    code_if(a.has(Attrs::bold()), "1"@) + code_if(a.has(Attrs::dim()), "2"@) + code_if(
        a.has(Attrs::italic()),
        "3"@,
    ) + code_if(a.has(Attrs::underline()), underline_code(a.style())) + code_if(
        a.has(Attrs::reverse()),
        "7"@,
    ) + code_if(a.has(Attrs::hidden()), "8"@) + code_if(a.has(Attrs::strike()), "9"@)
}

/// The parameters that set this colour; none for the default, which a reset already set.
pub open spec fn color_codes(c: Color, foreground: bool) -> Seq<u8> {
    let base: nat = if foreground {
        30
    } else {
        40
    };
    match c {
        Color::Default => Seq::empty(),
        Color::Ansi(i) => if i < 8 {
            utf8(";"@) + decimal(base + i as nat)
        } else {
            utf8(";"@) + decimal(base + 60 + (i % 8) as nat)
        },
        Color::Indexed(i) => utf8(";"@) + decimal(base + 8) + utf8(";5;"@) + decimal(i as nat),
        Color::Rgb(r, g, b) => utf8(";"@) + decimal(base + 8) + utf8(";2;"@) + decimal(r as nat)
            + utf8(";"@) + decimal(g as nat) + utf8(";"@) + decimal(b as nat),
    }
}

/// The value of a terminal capability.
pub open spec fn capability(name: Seq<u8>) -> Option<Seq<u8>> {
    if name == utf8("TN"@) || name == utf8("name"@) {
        Some(utf8("bnkterm"@))
    } else if name == utf8("Co"@) || name == utf8("colors"@) {
        Some(utf8("256"@))
    } else if name == utf8("RGB"@) {
        Some(utf8("8/8/8"@))
    } else {
        None
    }
}

/// The answer about one capability: the name goes back exactly as it arrived.
pub open spec fn capability_reply(name: Seq<u8>) -> Seq<u8> {
    match hex_decoded(name) {
        None => utf8("\x1bP0+r\x1b\\"@),
        Some(plain) => match capability(plain) {
            Some(value) => utf8("\x1bP1+r"@) + name + utf8("="@) + hex_encoded(value) + utf8(
                "\x1b\\"@,
            ),
            None => utf8("\x1bP0+r"@) + name + utf8("\x1b\\"@),
        },
    }
}

/// The answers about a list of capabilities.
pub open spec fn capability_replies(list: Seq<Seq<u8>>) -> Seq<u8>
    decreases list.len(),
{
    if list.len() == 0 {
        Seq::empty()
    } else {
        capability_replies(list.drop_last()) + capability_reply(list.last())
    }
}

/// The keyboard stack after a set (61), a push (62) or a pop (60), with `current` in force.
pub open spec fn stack_after(
    stack: Seq<KittyFlags>,
    current: KittyFlags,
    params: Seq<Seq<u16>>,
    marker: u8,
) -> Seq<KittyFlags> {
    let flags = KittyFlags::granted(value_at(params, 0));
    if marker == 61 {
        let mode = if params.len() > 1 {
            value_at(params, 1)
        } else {
            1
        };
        let next = current.applied(flags, mode);
        if stack.len() > 0 {
            stack.update(stack.len() - 1, next)
        } else {
            seq![next]
        }
    } else if marker == 62 {
        (if stack.len() >= KITTY_STACK_LIMIT {
            stack.skip(1)
        } else {
            stack
        }).push(flags)
    } else {
        let asked = value_at(params, 0);
        let count = if asked < 1 {
            1int
        } else {
            asked as int
        };
        stack.take(
            if count < stack.len() {
                stack.len() - count
            } else {
                0
            },
        )
    }
}

impl ScreenView {
    /// The answer to "what is this setting?": the sequence that would reproduce it, or that
    /// the question is not supported.
    pub open spec fn setting_reply(self, setting: Seq<u8>) -> Seq<u8> {
        if setting == utf8("m"@) {
            utf8("\x1bP1$r0"@) + attr_codes(self.pen.attrs) + color_codes(self.pen.fg, true)
                + color_codes(self.pen.bg, false) + utf8("m\x1b\\"@)
        } else if setting == utf8("r"@) {
            utf8("\x1bP1$r"@) + decimal((self.active().scroll_top + 1) as nat) + utf8(";"@)
                + decimal((self.active().scroll_bottom + 1) as nat) + utf8("r\x1b\\"@)
        } else {
            utf8("\x1bP0$r\x1b\\"@)
        }
    }

    /// The kitty keyboard flags queried, set, pushed or popped.
    pub open spec fn kitty_asked(self, params: Seq<Seq<u16>>, private: u8) -> ScreenView {
        if private == 63 {
            self.responding(utf8("\x1b[?"@) + decimal(self.kitty().0 as nat) + utf8("u"@))
        } else if private == 61 || private == 62 || private == 60 {
            ScreenView {
                kitty_stack: stack_after(self.kitty_stack, self.kitty(), params, private),
                ..self
            }
        } else {
            self
        }
    }

    /// xterm's key-modifier resource set; leaving out the level resets it.
    pub open spec fn modify_keys_asked(self, params: Seq<Seq<u16>>) -> ScreenView {
        if value_at(params, 0) != 4 {
            self
        } else {
            ScreenView {
                modify_other_keys: if params.len() > 1 {
                    ModifyOtherKeys::of_param(value_at(params, 1))
                } else {
                    ModifyOtherKeys::Off
                },
                ..self
            }
        }
    }
}

fn underline_sgr(style: UnderlineStyle) -> (r: &'static str)
    ensures
        r@ == underline_code(style),
{
    match style {
        UnderlineStyle::Single => "4",
        UnderlineStyle::Double => "4:2",
        UnderlineStyle::Curly => "4:3",
        UnderlineStyle::Dotted => "4:4",
        UnderlineStyle::Dashed => "4:5",
    }
}

/// The value of a terminal capability.
fn capability_of(name: &[u8]) -> (r: Option<&'static str>)
    ensures
        r is Some <==> capability(name@) is Some,
        r matches Some(v) ==> capability(name@) == Some(utf8(v@)),
{
    if is_text(name, "TN") || is_text(name, "name") {
        Some("bnkterm")
    } else if is_text(name, "Co") || is_text(name, "colors") {
        Some("256")
    } else if is_text(name, "RGB") {
        Some("8/8/8")
    } else {
        None
    }
}

/// Push an entry, dropping the oldest where the stack is full.
fn push_flags(stack: &mut Vec<KittyFlags>, flags: KittyFlags)
    ensures
        final(stack)@ == (if old(stack)@.len() >= KITTY_STACK_LIMIT {
            old(stack)@.skip(1)
        } else {
            old(stack)@
        }).push(flags),
{
    if stack.len() >= KITTY_STACK_LIMIT {
        stack.remove(0);
        assert(stack@ =~= old(stack)@.skip(1));
    }
    stack.push(flags);
}

/// Replace the top entry; setting flags with nothing pushed still takes effect.
fn set_flags(stack: &mut Vec<KittyFlags>, flags: KittyFlags)
    ensures
        final(stack)@ == (if old(stack)@.len() > 0 {
            old(stack)@.update(old(stack)@.len() - 1, flags)
        } else {
            seq![flags]
        }),
{
    let n: usize = stack.len();
    if n > 0 {
        stack.set(n - 1, flags);
    } else {
        stack.push(flags);
        assert(stack@ =~= seq![flags]);
    }
}

/// Set, push or pop keyboard flags.
fn change_flags(stack: &mut Vec<KittyFlags>, current: KittyFlags, params: &Params, marker: u8)
    ensures
        final(stack)@ == stack_after(old(stack)@, current, params@, marker),
{
    let flags = KittyFlags::from_request(params.value(0));
    if marker == 61 {
        let mode: u16 = if params.len() > 1 {
            params.value(1)
        } else {
            1
        };
        set_flags(stack, current.apply(flags, mode));
    } else if marker == 62 {
        push_flags(stack, flags);
    } else {
        let asked: u16 = params.value(0);
        let count: usize = if asked < 1 {
            1
        } else {
            asked as usize
        };
        let keep: usize = stack.len().saturating_sub(count);
        stack.truncate(keep);
        assert(stack@ =~= old(stack)@.take(keep as int));
    }
}

fn write_code(out: &mut Vec<u8>, applies: bool, code: &str)
    ensures
        final(out)@ == old(out)@ + code_if(applies, code@),
{
    reveal(code_if);
    if applies {
        write_text(out, ";");
        write_text(out, code);
    }
    assert(out@ =~= old(out)@ + code_if(applies, code@));
}

/// Append the parameters that set these attributes.
fn write_attrs(out: &mut Vec<u8>, attrs: Attrs)
    ensures
        final(out)@ == old(out)@ + attr_codes(attrs),
{
    write_code(out, attrs.contains(Attrs::bold()), "1");
    write_code(out, attrs.contains(Attrs::dim()), "2");
    write_code(out, attrs.contains(Attrs::italic()), "3");
    write_code(
        out,
        attrs.contains(Attrs::underline()),
        underline_sgr(attrs.underline_style()),
    );
    write_code(out, attrs.contains(Attrs::reverse()), "7");
    write_code(out, attrs.contains(Attrs::hidden()), "8");
    write_code(out, attrs.contains(Attrs::strike()), "9");
    assert(out@ =~= old(out)@ + attr_codes(attrs));
}

/// Append the parameters that set a colour; nothing for the default.
fn push_sgr_color(out: &mut Vec<u8>, color: Color, foreground: bool)
    ensures
        final(out)@ == old(out)@ + color_codes(color, foreground),
{
    let base: u32 = if foreground {
        30
    } else {
        40
    };
    match color {
        Color::Default => {},
        Color::Ansi(i) => {
            write_text(out, ";");
            if i < 8 {
                push_decimal(out, base + i as u32);
            } else {
                push_decimal(out, base + 60 + (i % 8) as u32);
            }
        },
        Color::Indexed(i) => {
            write_text(out, ";");
            push_decimal(out, base + 8);
            write_text(out, ";5;");
            push_decimal(out, i as u32);
        },
        Color::Rgb(r, g, b) => {
            write_text(out, ";");
            push_decimal(out, base + 8);
            write_text(out, ";2;");
            push_decimal(out, r as u32);
            write_text(out, ";");
            push_decimal(out, g as u32);
            write_text(out, ";");
            push_decimal(out, b as u32);
        },
    }
    assert(out@ =~= old(out)@ + color_codes(color, foreground));
}

/// Append the answer about one capability.
fn write_capability(out: &mut Vec<u8>, name: &[u8])
    ensures
        final(out)@ == old(out)@ + capability_reply(name@),
{
    match hex_decode(name) {
        None => write_text(out, "\x1bP0+r\x1b\\"),
        Some(plain) => {
            match capability_of(plain.as_slice()) {
                Some(value) => {
                    write_text(out, "\x1bP1+r");
                    out.extend_from_slice(name);
                    write_text(out, "=");
                    hex_encode(value.as_bytes(), out);
                    write_text(out, "\x1b\\");
                },
                None => {
                    write_text(out, "\x1bP0+r");
                    out.extend_from_slice(name);
                    write_text(out, "\x1b\\");
                },
            }
        },
    }
    assert(out@ =~= old(out)@ + capability_reply(name@));
}

/// Append the answers about a list of capabilities.
fn write_capabilities(out: &mut Vec<u8>, data: &[u8])
    ensures
        final(out)@ == old(out)@ + capability_replies(fields(data@, 59)),
{
    let list = split_fields(data, 59);
    let ghost all = fields(data@, 59);
    let mut i: usize = 0;
    assert(out@ =~= old(out)@ + capability_replies(all.take(0)));
    while i < list.len()
        invariant
            i <= list@.len(),
            fields_view(list@) == all,
            out@ == old(out)@ + capability_replies(all.take(i as int)),
        decreases list.len() - i,
    {
        assert(all[i as int] == list@[i as int]@);
        assert(all.take(i + 1).drop_last() =~= all.take(i as int));
        write_capability(out, list[i].as_slice());
        i = i + 1;
        assert(out@ =~= old(out)@ + capability_replies(all.take(i as int)));
    }
    assert(all.take(i as int) =~= all);
}

impl Screen {
    /// XTVERSION: say what terminal this is.
    pub fn xtversion(&mut self)
        requires
            old(self).wf(),
        ensures
            final(self)@ == old(self)@.responding(
                utf8("\x1bP>|bnkterm "@) + utf8(VERSION@) + utf8("\x1b\\"@),
            ),
            final(self).wf(),
    {
        self.respond_text("\x1bP>|bnkterm ");
        self.respond_text(VERSION);
        self.respond_text("\x1b\\");
        assert(self@.responses =~= old(self)@.responses + (utf8("\x1bP>|bnkterm "@) + utf8(
            VERSION@,
        ) + utf8("\x1b\\"@)));
    }

    /// DECRQSS: "what is this setting currently set to?" An unknown request is answered as
    /// unsupported: an invented answer would be taken at face value and restored.
    pub fn decrqss(&mut self, setting: &[u8])
        requires
            old(self).wf(),
        ensures
            final(self)@ == old(self)@.responding(old(self)@.setting_reply(setting@)),
            final(self).wf(),
    {
        let pen = self.pen;
        let b = self.active();
        let (top, bottom) = (b.scroll_top, b.scroll_bottom);
        let mut reply: Vec<u8> = Vec::new();
        if is_text(setting, "m") {
            write_text(&mut reply, "\x1bP1$r0");
            write_attrs(&mut reply, pen.attrs);
            push_sgr_color(&mut reply, pen.fg, true);
            push_sgr_color(&mut reply, pen.bg, false);
            write_text(&mut reply, "m\x1b\\");
        } else if is_text(setting, "r") {
            write_text(&mut reply, "\x1bP1$r");
            push_decimal(&mut reply, top as u32 + 1);
            write_text(&mut reply, ";");
            push_decimal(&mut reply, bottom as u32 + 1);
            write_text(&mut reply, "r\x1b\\");
        } else {
            write_text(&mut reply, "\x1bP0$r\x1b\\");
        }
        assert(reply@ =~= self@.setting_reply(setting@));
        self.respond(reply.as_slice());
    }

    /// XTGETTCAP: "what does your terminfo say about these capabilities?" Names and values
    /// travel in hexadecimal. An unknown capability gets an answer too, so that the program
    /// stops waiting.
    pub fn xtgettcap(&mut self, data: &[u8])
        requires
            old(self).wf(),
        ensures
            final(self)@ == old(self)@.responding(capability_replies(fields(data@, 59))),
            final(self).wf(),
    {
        write_capabilities(&mut self.responses, data);
    }

    /// The kitty keyboard protocol: query, set, push and pop, told apart by their private
    /// marker. A request is masked to what is supported on the way in.
    pub fn kitty_keyboard(&mut self, params: &Params, private: u8)
        requires
            old(self).wf(),
        ensures
            final(self)@ == old(self)@.kitty_asked(params@, private),
            final(self).wf(),
    {
        match private {
            63 => self.report_kitty_flags(),
            61 | 62 | 60 => {
                let current = self.kitty_flags();
                change_flags(&mut self.kitty_stack, current, params, private);
            },
            _ => {},
        }
    }

    fn report_kitty_flags(&mut self)
        requires
            old(self).wf(),
        ensures
            final(self)@ == old(self)@.responding(
                utf8("\x1b[?"@) + decimal(old(self)@.kitty().0 as nat) + utf8("u"@),
            ),
            final(self).wf(),
    {
        let flags = self.kitty_flags().bits();
        self.respond_text("\x1b[?");
        self.respond_number(flags);
        self.respond_text("u");
        assert(self@.responses =~= old(self)@.responses + (utf8("\x1b[?"@) + decimal(flags as nat)
            + utf8("u"@)));
    }

    /// XTMODKEYS: resource 4 is `modifyOtherKeys`, the only one implemented. Leaving out the
    /// level resets it.
    pub fn xtmodkeys(&mut self, params: &Params)
        requires
            old(self).wf(),
        ensures
            final(self)@ == old(self)@.modify_keys_asked(params@),
            final(self).wf(),
    {
        if params.value(0) != 4 {
            return;
        }
        self.modify_other_keys = if params.len() > 1 {
            ModifyOtherKeys::from_param(params.value(1))
        } else {
            ModifyOtherKeys::Off
        };
    }
}

} // verus!
