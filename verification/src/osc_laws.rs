//! What the operating-system commands set, and what they are answered.
use vstd::prelude::*;
use crate::cell::{LinkId, Pen};
use crate::codec::{base64_decoded, byte_field, percent_decoded, signed_field};
use crate::color::{default_shade, x11_text, x11_value, Rgb, ThemeView};
use crate::dispatch::color_command;
use crate::fields::{
    fields, head, lemma_fields_single, lemma_fields_split, lemma_first_at_is, tail,
};
use crate::ids::AbsRow;
use crate::link::openable;
use crate::mode_laws::lemma_ascii;
use crate::osc::{cwd_path, NamedColor};
use crate::screen::{ClipboardTarget, Prompt, ScreenView};
use crate::text::{decimal, lossy_text, utf8};

verus! {

/// No separator stands in a field.
pub open spec fn one_field(s: Seq<u8>) -> bool {
    forall|i: int| 0 <= i < s.len() ==> #[trigger] s[i] != 59
}

/// The screen after an operating-system command: a number, and what it is about.
#[verifier::opaque]
pub open spec fn osc(s: ScreenView, number: Seq<u8>, about: Seq<u8>, bel: bool) -> ScreenView {
    s.osc_done(number + seq![59u8] + about, bel)
}

/// What stands on either side of the first separator.
proof fn lemma_parts(a: Seq<u8>, b: Seq<u8>)
    requires
        one_field(a),
    ensures
        head(a + seq![59u8] + b, 59) == a,
        tail(a + seq![59u8] + b, 59) == b,
{
    let s = a + seq![59u8] + b;
    assert forall|i: int| 0 <= i < a.len() implies #[trigger] s[i] != 59 by {
        assert(s[i] == a[i]);
    }
    lemma_first_at_is(s, 59, a.len() as int);
    assert(s.take(a.len() as int) =~= a);
    assert(s.skip(a.len() as int + 1) =~= b);
}

/// The numbers of the commands, as bytes.
proof fn lemma_numbers()
    ensures
        utf8("0"@) == seq![48u8],
        utf8("2"@) == seq![50u8],
        utf8("4"@) == seq![52u8],
        utf8("7"@) == seq![55u8],
        utf8("8"@) == seq![56u8],
        utf8("10"@) == seq![49u8, 48],
        utf8("11"@) == seq![49u8, 49],
        utf8("12"@) == seq![49u8, 50],
        utf8("52"@) == seq![53u8, 50],
        utf8("104"@) == seq![49u8, 48, 52],
        utf8("110"@) == seq![49u8, 49, 48],
        utf8("111"@) == seq![49u8, 49, 49],
        utf8("112"@) == seq![49u8, 49, 50],
        utf8("133"@) == seq![49u8, 51, 51],
{
    reveal_strlit("0");
    reveal_strlit("2");
    reveal_strlit("4");
    reveal_strlit("7");
    reveal_strlit("8");
    reveal_strlit("10");
    reveal_strlit("11");
    reveal_strlit("12");
    reveal_strlit("52");
    reveal_strlit("104");
    reveal_strlit("110");
    reveal_strlit("111");
    reveal_strlit("112");
    reveal_strlit("133");
    lemma_ascii("0"@, seq![48u8]);
    lemma_ascii("2"@, seq![50u8]);
    lemma_ascii("4"@, seq![52u8]);
    lemma_ascii("7"@, seq![55u8]);
    lemma_ascii("8"@, seq![56u8]);
    lemma_ascii("10"@, seq![49u8, 48]);
    lemma_ascii("11"@, seq![49u8, 49]);
    lemma_ascii("12"@, seq![49u8, 50]);
    lemma_ascii("52"@, seq![53u8, 50]);
    lemma_ascii("104"@, seq![49u8, 48, 52]);
    lemma_ascii("110"@, seq![49u8, 49, 48]);
    lemma_ascii("111"@, seq![49u8, 49, 49]);
    lemma_ascii("112"@, seq![49u8, 49, 50]);
    lemma_ascii("133"@, seq![49u8, 51, 51]);
}

/// Two runs that differ in length, or at a place, are not the same.
proof fn lemma_apart(a: Seq<u8>, b: Seq<u8>, i: int)
    requires
        a.len() != b.len() || (0 <= i < a.len() && a[i] != b[i]),
    ensures
        a != b,
{
}

/// A command about colours is carried out as one.
proof fn lemma_color_command(s: ScreenView, number: Seq<u8>, about: Seq<u8>, bel: bool)
    requires
        one_field(number),
        color_command(number),
    ensures
        osc(s, number, about, bel) == s.colors_commanded(number, about, bel),
{
    reveal(osc);
    lemma_parts(number, about);
}

/// Any other command is carried out as one of the others.
proof fn lemma_other_command(s: ScreenView, number: Seq<u8>, about: Seq<u8>, bel: bool)
    requires
        one_field(number),
        !color_command(number),
    ensures
        osc(s, number, about, bel) == s.others_commanded(number, about),
{
    reveal(osc);
    lemma_parts(number, about);
}

/// A number of one digit, but for the palette's, is no command about colours.
proof fn lemma_short_number(n: u8)
    requires
        n != 52,
    ensures
        !color_command(seq![n]),
{
    let number = seq![n];
    lemma_numbers();
    lemma_apart(number, seq![52u8], 0);
    lemma_apart(number, seq![49u8, 48], 0);
    lemma_apart(number, seq![49u8, 49], 0);
    lemma_apart(number, seq![49u8, 50], 0);
    lemma_apart(number, seq![49u8, 48, 52], 0);
    lemma_apart(number, seq![49u8, 49, 48], 0);
    lemma_apart(number, seq![49u8, 49, 49], 0);
    lemma_apart(number, seq![49u8, 49, 50], 0);
}

/// The commands of one digit.
proof fn lemma_short_commands(s: ScreenView, n: u8, about: Seq<u8>, bel: bool)
    requires
        n == 48 || n == 50 || n == 55 || n == 56,
    ensures
        n == 48 || n == 50 ==> osc(s, seq![n], about, bel) == (ScreenView {
            title: lossy_text(about),
            ..s
        }),
        n == 55 ==> osc(s, seq![n], about, bel) == s.cwd_reported(about),
        n == 56 ==> osc(s, seq![n], about, bel) == s.hyperlink_set(about),
{
    let number = seq![n];
    lemma_short_number(n);
    lemma_numbers();
    lemma_other_command(s, number, about, bel);
    if n != 48 {
        lemma_apart(number, seq![48u8], 0);
    }
    if n != 50 {
        lemma_apart(number, seq![50u8], 0);
    }
    if n != 55 {
        lemma_apart(number, seq![55u8], 0);
    }
}

/// The command about the clipboard.
proof fn lemma_clipboard_command(s: ScreenView, about: Seq<u8>, bel: bool)
    ensures
        osc(s, seq![53u8, 50], about, bel) == s.clipboard_set(about),
{
    let number = seq![53u8, 50];
    lemma_numbers();
    lemma_apart(number, seq![52u8], 0);
    lemma_apart(number, seq![49u8, 48], 0);
    lemma_apart(number, seq![49u8, 49], 0);
    lemma_apart(number, seq![49u8, 50], 0);
    lemma_apart(number, seq![49u8, 48, 52], 0);
    lemma_apart(number, seq![49u8, 49, 48], 0);
    lemma_apart(number, seq![49u8, 49, 49], 0);
    lemma_apart(number, seq![49u8, 49, 50], 0);
    assert(!color_command(number));
    lemma_other_command(s, number, about, bel);
    lemma_apart(number, seq![48u8], 0);
    lemma_apart(number, seq![50u8], 0);
    lemma_apart(number, seq![55u8], 0);
    lemma_apart(number, seq![56u8], 0);
}

/// The command of the shell's marks.
proof fn lemma_mark_command(s: ScreenView, about: Seq<u8>, bel: bool)
    ensures
        osc(s, seq![49u8, 51, 51], about, bel) == s.shell_marked(about),
{
    let number = seq![49u8, 51, 51];
    lemma_numbers();
    lemma_apart(number, seq![52u8], 0);
    lemma_apart(number, seq![49u8, 48], 0);
    lemma_apart(number, seq![49u8, 49], 0);
    lemma_apart(number, seq![49u8, 50], 0);
    lemma_apart(number, seq![49u8, 48, 52], 1);
    lemma_apart(number, seq![49u8, 49, 48], 1);
    lemma_apart(number, seq![49u8, 49, 49], 1);
    lemma_apart(number, seq![49u8, 49, 50], 1);
    assert(!color_command(number));
    lemma_other_command(s, number, about, bel);
    lemma_apart(number, seq![48u8], 0);
    lemma_apart(number, seq![50u8], 0);
    lemma_apart(number, seq![55u8], 0);
    lemma_apart(number, seq![56u8], 0);
    lemma_apart(number, seq![53u8, 50], 0);
}

/// The commands about the palette.
proof fn lemma_palette_commands(s: ScreenView, about: Seq<u8>, bel: bool)
    ensures
        osc(s, seq![52u8], about, bel) == s.palette_asked(fields(about, 59), bel),
        osc(s, seq![49u8, 48, 52], about, bel) == s.palette_reset(about),
{
    lemma_numbers();
    lemma_color_command(s, seq![52u8], about, bel);
    let number = seq![49u8, 48, 52];
    lemma_apart(number, seq![52u8], 0);
    lemma_apart(number, seq![49u8, 48], 0);
    lemma_apart(number, seq![49u8, 49], 0);
    lemma_apart(number, seq![49u8, 50], 0);
    lemma_color_command(s, number, about, bel);
}

/// The title: commands 0 and 2 set it to the text behind the number, and nothing else.
pub proof fn lemma_title(s: ScreenView, text: Seq<u8>, bel: bool)
    ensures
        osc(s, seq![48u8], text, bel) == (ScreenView { title: lossy_text(text), ..s }),
        osc(s, seq![50u8], text, bel) == (ScreenView { title: lossy_text(text), ..s }),
{
    lemma_short_commands(s, 48, text, bel);
    lemma_short_commands(s, 50, text, bel);
}

/// The working directory (7): the path of a file URL, whatever its host, or a bare path, with
/// its escapes undone. Anything else is no report.
pub proof fn lemma_working_directory(
    s: ScreenView,
    host: Seq<u8>,
    path: Seq<u8>,
    other: Seq<u8>,
    bel: bool,
)
    requires
        forall|i: int| 0 <= i < host.len() ==> #[trigger] host[i] != 47,
        path.len() > 0 && path[0] == 47,
        other.len() == 0 || (other[0] != 47 && other[0] != 102),
    ensures
        ({
            let told = ScreenView { cwd: Some(lossy_text(percent_decoded(path))), ..s };
            let scheme = seq![102u8, 105, 108, 101, 58, 47, 47];
            &&& osc(s, seq![55u8], path, bel) == told
            &&& osc(s, seq![55u8], scheme + host + path, bel) == told
            &&& osc(s, seq![55u8], scheme + host, bel) == s
            &&& osc(s, seq![55u8], other, bel) == s
        }),
{
    let scheme = seq![102u8, 105, 108, 101, 58, 47, 47];
    lemma_short_commands(s, 55, path, bel);
    lemma_short_commands(s, 55, scheme + host + path, bel);
    lemma_short_commands(s, 55, scheme + host, bel);
    lemma_short_commands(s, 55, other, bel);
    lemma_file_scheme();
    lemma_paths(host, path);
    lemma_no_path(other);
}

proof fn lemma_file_scheme()
    ensures
        utf8("file://"@) == seq![102u8, 105, 108, 101, 58, 47, 47],
{
    reveal_strlit("file://");
    lemma_ascii("file://"@, seq![102u8, 105, 108, 101, 58, 47, 47]);
}

proof fn lemma_no_path(other: Seq<u8>)
    requires
        other.len() == 0 || (other[0] != 47 && other[0] != 102),
    ensures
        cwd_path(other) is None,
{
    lemma_file_scheme();
    if other.len() >= 7 {
        assert(other.take(7)[0] == other[0]);
        lemma_apart(other.take(7), seq![102u8, 105, 108, 101, 58, 47, 47], 0);
    }
}

proof fn lemma_paths(host: Seq<u8>, path: Seq<u8>)
    requires
        forall|i: int| 0 <= i < host.len() ==> #[trigger] host[i] != 47,
        path.len() > 0 && path[0] == 47,
    ensures
        ({
            let scheme = seq![102u8, 105, 108, 101, 58, 47, 47];
            &&& cwd_path(path) == Some(path)
            &&& cwd_path(scheme + host + path) == Some(path)
            &&& cwd_path(scheme + host) is None
        }),
{
    let scheme = seq![102u8, 105, 108, 101, 58, 47, 47];
    lemma_file_scheme();
    if path.len() >= 7 {
        assert(path.take(7)[0] == 47);
        lemma_apart(path.take(7), scheme, 0);
    }
    let full = scheme + host + path;
    assert(full.take(7) =~= scheme);
    let rest = full.skip(7);
    assert(rest =~= host + path);
    assert forall|i: int| 0 <= i < host.len() implies #[trigger] rest[i] != 47 by {
        assert(rest[i] == host[i]);
    }
    assert(rest[host.len() as int] == path[0]);
    lemma_first_at_is(rest, 47, host.len() as int);
    assert(rest.skip(host.len() as int) =~= path);
    let bare = scheme + host;
    assert(bare.take(7) =~= scheme);
    assert(bare.skip(7) =~= host);
    lemma_first_at_is(host, 47, host.len() as int);
}

/// Closing a hyperlink (8): an empty target, or one that may not be opened, takes the pen out
/// of any link and changes nothing else; what stands before the target does not matter.
pub proof fn lemma_link_closed(s: ScreenView, ids: Seq<u8>, uri: Seq<u8>, bel: bool)
    requires
        one_field(ids),
        uri.len() == 0 || !vstd::utf8::valid_utf8(uri) || !openable(vstd::utf8::decode_utf8(uri)),
    ensures
        osc(s, seq![56u8], ids + seq![59u8] + uri, bel) == (ScreenView {
            pen: Pen { link: LinkId(0), ..s.pen },
            ..s
        }),
{
    lemma_short_commands(s, 56, ids + seq![59u8] + uri, bel);
    lemma_parts(ids, uri);
    if uri.len() == 0 {
        assert(vstd::utf8::decode_utf8(uri).len() == 0);
    }
}

/// Opening one puts the pen inside the link to its target.
pub proof fn lemma_link_opened(s: ScreenView, ids: Seq<u8>, uri: Seq<u8>, bel: bool)
    requires
        one_field(ids),
        vstd::utf8::valid_utf8(uri) && openable(vstd::utf8::decode_utf8(uri)),
    ensures
        ({
            let t = osc(s, seq![56u8], ids + seq![59u8] + uri, bel);
            &&& t == s.linked(vstd::utf8::decode_utf8(uri))
            &&& t.pen.fg == s.pen.fg && t.pen.bg == s.pen.bg && t.pen.attrs == s.pen.attrs
        }),
{
    lemma_short_commands(s, 56, ids + seq![59u8] + uri, bel);
    lemma_parts(ids, uri);
}

/// A target may be opened exactly when it starts with one of three schemes.
pub proof fn lemma_openable(scheme: Seq<char>, rest: Seq<char>)
    ensures
        scheme == seq!['h', 't', 't', 'p', 's', ':', '/', '/'] || scheme == seq![
            'h',
            't',
            't',
            'p',
            ':',
            '/',
            '/',
        ] || scheme == seq!['f', 'i', 'l', 'e', ':', '/', '/'] ==> openable(scheme + rest),
        openable(rest) ==> rest.len() >= 7 && (rest.take(7) == seq![
            'h',
            't',
            't',
            'p',
            ':',
            '/',
            '/',
        ] || rest.take(7) == seq!['f', 'i', 'l', 'e', ':', '/', '/'] || (rest.len() >= 8
            && rest.take(8) == seq!['h', 't', 't', 'p', 's', ':', '/', '/'])),
{
    let all = scheme + rest;
    assert(all.subrange(0, scheme.len() as int) =~= scheme);
    if rest.len() >= 7 {
        assert(rest.subrange(0, 7) =~= rest.take(7));
    }
    if rest.len() >= 8 {
        assert(rest.subrange(0, 8) =~= rest.take(8));
    }
}

/// The clipboard (52): text that decodes goes to the clipboard where the selection is empty
/// or names it, to the primary selection where it names that, behind what was there. Text
/// that does not decode goes nowhere, and a request to read is not answered.
pub proof fn lemma_clipboard(s: ScreenView, which: Seq<u8>, text: Seq<u8>, bel: bool)
    requires
        one_field(which),
    ensures
        ({
            let t = osc(s, seq![53u8, 50], which + seq![59u8] + text, bel);
            let first = which.len() == 0 || which.contains(99);
            let second = which.contains(112) || which.contains(115);
            let w = t.clipboard_writes;
            let n = s.clipboard_writes.len() as int;
            if text == seq![63u8] || base64_decoded(text) is None {
                t == s
            } else {
                &&& t == (ScreenView { clipboard_writes: w, ..s })
                &&& w.take(n) == s.clipboard_writes
                &&& w.len() == n + (if first {
                    1int
                } else {
                    0
                }) + (if second {
                    1int
                } else {
                    0
                })
                &&& first ==> w[n] == (ClipboardTarget::Clipboard, base64_decoded(text)->0)
                &&& second ==> w[w.len() - 1] == (ClipboardTarget::Primary, base64_decoded(text)->0)
            }
        }),
{
    lemma_clipboard_command(s, which + seq![59u8] + text, bel);
    lemma_parts(which, text);
    reveal_strlit("?");
    lemma_ascii("?"@, seq![63u8]);
    let t = s.clipboard_set(which + seq![59u8] + text);
    if text != seq![63u8] && base64_decoded(text) is Some {
        assert(t.clipboard_writes.take(s.clipboard_writes.len() as int) =~= s.clipboard_writes);
    }
}

// ---- the shell's marks --------------------------------------------------------------------------

/// A prompt (133 A) is marked on the cursor's line, with no output and no exit yet, behind
/// those before it, of which the oldest goes where there are too many; marking the line that
/// was marked last again changes nothing.
pub proof fn lemma_prompt_marked(s: ScreenView, bel: bool)
    requires
        s.wf(),
        s.active().evicted + s.active().stream().len() <= u64::MAX,
    ensures
        ({
            let b = s.active();
            let t = osc(s, seq![49u8, 51, 51], seq![65u8], bel);
            let here = AbsRow((b.evicted + b.scrollback.len() + b.cursor.row) as u64);
            let n = s.prompts.len() as int;
            &&& t == (ScreenView { prompts: t.prompts, ..s })
            &&& if n > 0 && s.prompts[n - 1].row == here {
                t.prompts == s.prompts
            } else {
                &&& t.prompts.len() == (if n < 4096 {
                    n + 1
                } else {
                    4096
                })
                &&& t.prompts.last() == (Prompt { row: here, output: None, exit: None })
                &&& n < 4096 ==> t.prompts.drop_last() == s.prompts
                &&& n == 4096 ==> t.prompts.drop_last() == s.prompts.skip(1)
            }
        }),
{
    lemma_mark_command(s, seq![65u8], bel);
    lemma_fields_single(seq![65u8], 59);
    reveal_strlit("A");
    lemma_ascii("A"@, seq![65u8]);
    let t = s.shell_marked(seq![65u8]);
    let n = s.prompts.len() as int;
    if n < 4096 {
        assert(s.prompts.push(
            Prompt { row: s.cursor_row_id(), output: None, exit: None },
        ).drop_last() =~= s.prompts);
    } else {
        assert(s.prompts.skip(1).push(
            Prompt { row: s.cursor_row_id(), output: None, exit: None },
        ).drop_last() =~= s.prompts.skip(1));
    }
}

/// The output of the last prompt's command starts (133 C) on the cursor's line, once.
pub proof fn lemma_output_marked(s: ScreenView, bel: bool)
    requires
        s.wf(),
        s.active().evicted + s.active().stream().len() <= u64::MAX,
    ensures
        ({
            let b = s.active();
            let t = osc(s, seq![49u8, 51, 51], seq![67u8], bel);
            let here = AbsRow((b.evicted + b.scrollback.len() + b.cursor.row) as u64);
            let n = s.prompts.len() as int;
            &&& t == (ScreenView { prompts: t.prompts, ..s })
            &&& if n > 0 && s.prompts[n - 1].output is None {
                t.prompts == s.prompts.update(
                    n - 1,
                    Prompt { output: Some(here), ..s.prompts[n - 1] },
                )
            } else {
                t.prompts == s.prompts
            }
        }),
{
    lemma_mark_command(s, seq![67u8], bel);
    lemma_fields_single(seq![67u8], 59);
    reveal_strlit("A");
    reveal_strlit("C");
    lemma_ascii("A"@, seq![65u8]);
    lemma_ascii("C"@, seq![67u8]);
    lemma_apart(seq![67u8], seq![65u8], 0);
}

/// The last prompt's command ended (133 D) with the status given, where one is.
pub proof fn lemma_exit_marked(s: ScreenView, status: Seq<u8>, bel: bool)
    requires
        one_field(status),
    ensures
        ({
            let t = osc(s, seq![49u8, 51, 51], seq![68u8] + seq![59u8] + status, bel);
            let n = s.prompts.len() as int;
            &&& t == (ScreenView { prompts: t.prompts, ..s })
            &&& match signed_field(status) {
                Some(v) => if n > 0 {
                    t.prompts == s.prompts.update(
                        n - 1,
                        Prompt { exit: Some(v as i32), ..s.prompts[n - 1] },
                    )
                } else {
                    t.prompts == s.prompts
                },
                None => t.prompts == s.prompts,
            }
            &&& osc(s, seq![49u8, 51, 51], seq![68u8], bel) == s
        }),
{
    let about = seq![68u8] + seq![59u8] + status;
    lemma_mark_command(s, about, bel);
    lemma_mark_command(s, seq![68u8], bel);
    lemma_fields_split(seq![68u8], status, 59);
    lemma_fields_single(status, 59);
    lemma_fields_single(seq![68u8], 59);
    assert(fields(about, 59) =~= seq![seq![68u8], status]);
    reveal_strlit("A");
    reveal_strlit("C");
    reveal_strlit("D");
    lemma_ascii("A"@, seq![65u8]);
    lemma_ascii("C"@, seq![67u8]);
    lemma_ascii("D"@, seq![68u8]);
    lemma_apart(seq![68u8], seq![65u8], 0);
    lemma_apart(seq![68u8], seq![67u8], 0);
}

// ---- colours ------------------------------------------------------------------------------------

/// One index and one colour are one request.
proof fn lemma_one_entry(s: ScreenView, index: Seq<u8>, color: Seq<u8>, bel: bool)
    requires
        one_field(index),
        one_field(color),
    ensures
        osc(s, seq![52u8], index + seq![59u8] + color, bel) == s.entry_asked(index, color, bel),
{
    let about = index + seq![59u8] + color;
    lemma_palette_commands(s, about, bel);
    lemma_fields_split(index, color, 59);
    lemma_fields_single(color, 59);
    let one = seq![index, color];
    assert(fields(about, 59) =~= one);
    assert(one.skip(2) =~= Seq::empty());
    let t = s.entry_asked(index, color, bel);
    assert(t.palette_asked(one.skip(2), bel) == t);
    assert(s.palette_asked(one, bel) == t);
}

/// A palette entry (4) is set to the colour given, and no other entry changes; what is no
/// colour changes nothing.
pub proof fn lemma_palette_entry(s: ScreenView, index: Seq<u8>, color: Seq<u8>, bel: bool)
    requires
        s.theme.palette.len() == 256,
        one_field(index),
        one_field(color),
        byte_field(index) is Some,
        color != seq![63u8],
    ensures
        ({
            let i = byte_field(index)->0 as int;
            let t = osc(s, seq![52u8], index + seq![59u8] + color, bel);
            match x11_value(color) {
                Some(c) => {
                    &&& t.theme.palette.len() == 256
                    &&& forall|j: int|
                        0 <= j < 256 ==> #[trigger] t.theme.palette[j] == (if j == i {
                            c
                        } else {
                            s.theme.palette[j]
                        })
                    &&& t.theme.fg == s.theme.fg && t.theme.bg == s.theme.bg && t.theme.cursor
                        == s.theme.cursor
                    &&& t == (ScreenView { theme: t.theme, ..s })
                },
                None => t == s,
            }
        }),
{
    lemma_one_entry(s, index, color, bel);
    reveal_strlit("?");
    lemma_ascii("?"@, seq![63u8]);
}

/// A palette entry that is asked about is told, closed as the question was.
pub proof fn lemma_palette_told(s: ScreenView, index: Seq<u8>, bel: bool)
    requires
        one_field(index),
        byte_field(index) is Some,
    ensures
        ({
            let i = byte_field(index)->0 as int;
            let end = if bel {
                seq![7u8]
            } else {
                seq![27u8, 92]
            };
            osc(s, seq![52u8], index + seq![59u8] + seq![63u8], bel) == (ScreenView {
                responses: s.responses + (seq![27u8, 93, 52, 59] + decimal(i as nat) + seq![59u8]
                    + x11_text(s.theme.palette[i]) + end),
                ..s
            })
        }),
{
    lemma_one_entry(s, index, seq![63u8], bel);
    reveal_strlit("?");
    reveal_strlit("\x1b]4;");
    reveal_strlit(";");
    reveal_strlit("\x1b\\");
    lemma_ascii("?"@, seq![63u8]);
    lemma_ascii("\x1b]4;"@, seq![27u8, 93, 52, 59]);
    lemma_ascii(";"@, seq![59u8]);
    lemma_ascii("\x1b\\"@, seq![27u8, 92]);
}

/// The numbers that set the named colours.
proof fn lemma_named_commands(s: ScreenView, last: u8, about: Seq<u8>, bel: bool)
    requires
        48 <= last <= 50,
    ensures
        osc(s, seq![49u8, last], about, bel) == s.colors_asked(
            Some(
                if last == 48 {
                    NamedColor::Foreground
                } else if last == 49 {
                    NamedColor::Background
                } else {
                    NamedColor::Cursor
                },
            ),
            fields(about, 59),
            bel,
        ),
{
    let number = seq![49u8, last];
    lemma_numbers();
    lemma_apart(number, seq![52u8], 0);
    if last != 48 {
        lemma_apart(number, seq![49u8, 48], 1);
    }
    if last != 49 {
        lemma_apart(number, seq![49u8, 49], 1);
    }
    assert(color_command(number));
    lemma_color_command(s, number, about, bel);
}

/// The numbers that put them back.
proof fn lemma_back_commands(s: ScreenView, last: u8, about: Seq<u8>, bel: bool)
    requires
        48 <= last <= 50,
    ensures
        osc(s, seq![49u8, 49, last], about, bel) == s.named_reset(
            if last == 48 {
                NamedColor::Foreground
            } else if last == 49 {
                NamedColor::Background
            } else {
                NamedColor::Cursor
            },
        ),
{
    let number = seq![49u8, 49, last];
    lemma_numbers();
    lemma_apart(number, seq![52u8], 0);
    lemma_apart(number, seq![49u8, 48], 0);
    lemma_apart(number, seq![49u8, 49], 0);
    lemma_apart(number, seq![49u8, 50], 0);
    lemma_apart(number, seq![49u8, 48, 52], 1);
    if last != 48 {
        lemma_apart(number, seq![49u8, 49, 48], 2);
    }
    if last != 49 {
        lemma_apart(number, seq![49u8, 49, 49], 2);
    }
    assert(color_command(number));
    lemma_color_command(s, number, about, bel);
}

/// A list of one colour is one request.
proof fn lemma_one_color(s: ScreenView, which: NamedColor, color: Seq<u8>, bel: bool)
    requires
        one_field(color),
    ensures
        s.colors_asked(Some(which), fields(color, 59), bel) == s.color_asked(which, color, bel),
{
    lemma_fields_single(color, 59);
    let list = seq![color];
    assert(list.skip(1) =~= Seq::empty());
    let t = s.color_asked(which, color, bel);
    assert(t.colors_asked(which.after(), list.skip(1), bel) == t);
}

/// The named colours: 10 sets the foreground, 11 the background and 12 the cursor, and no
/// other colour; what is no colour changes nothing. 110, 111 and 112 put them back at the
/// defaults.
pub proof fn lemma_named_colors_set(s: ScreenView, color: Seq<u8>, any: Seq<u8>, bel: bool)
    requires
        one_field(color),
        color != seq![63u8],
    ensures
        ({
            let f = osc(s, seq![49u8, 48], color, bel);
            let b = osc(s, seq![49u8, 49], color, bel);
            let c = osc(s, seq![49u8, 50], color, bel);
            &&& match x11_value(color) {
                Some(v) => {
                    &&& f == (ScreenView { theme: ThemeView { fg: v, ..s.theme }, ..s })
                    &&& b == (ScreenView { theme: ThemeView { bg: v, ..s.theme }, ..s })
                    &&& c == (ScreenView { theme: ThemeView { cursor: v, ..s.theme }, ..s })
                },
                None => f == s && b == s && c == s,
            }
            &&& osc(s, seq![49u8, 49, 48], any, bel) == (ScreenView {
                theme: ThemeView { fg: Rgb { r: 255, g: 255, b: 255 }, ..s.theme },
                ..s
            })
            &&& osc(s, seq![49u8, 49, 49], any, bel) == (ScreenView {
                theme: ThemeView { bg: Rgb { r: 40, g: 44, b: 52 }, ..s.theme },
                ..s
            })
            &&& osc(s, seq![49u8, 49, 50], any, bel) == (ScreenView {
                theme: ThemeView { cursor: Rgb { r: 255, g: 0, b: 120 }, ..s.theme },
                ..s
            })
        }),
{
    lemma_named_commands(s, 48, color, bel);
    lemma_named_commands(s, 49, color, bel);
    lemma_named_commands(s, 50, color, bel);
    lemma_back_commands(s, 48, any, bel);
    lemma_back_commands(s, 49, any, bel);
    lemma_back_commands(s, 50, any, bel);
    lemma_one_color(s, NamedColor::Foreground, color, bel);
    lemma_one_color(s, NamedColor::Background, color, bel);
    lemma_one_color(s, NamedColor::Cursor, color, bel);
    reveal_strlit("?");
    lemma_ascii("?"@, seq![63u8]);
}

/// Asked about, a named colour is told by the number of its command; and in a list the fields
/// are about the foreground, the background and the cursor in turn, from the one the command
/// names on.
pub proof fn lemma_named_colors_told(s: ScreenView, rest: Seq<Seq<u8>>, bel: bool)
    ensures
        ({
            let end = if bel {
                seq![7u8]
            } else {
                seq![27u8, 92]
            };
            let first = seq![seq![63u8]] + rest;
            let told = ScreenView {
                responses: s.responses + (seq![27u8, 93] + seq![49u8, 48] + seq![59u8] + x11_text(
                    s.theme.fg,
                ) + end),
                ..s
            };
            let next = ScreenView {
                responses: s.responses + (seq![27u8, 93] + seq![49u8, 49] + seq![59u8] + x11_text(
                    s.theme.bg,
                ) + end),
                ..s
            };
            let last = ScreenView {
                responses: s.responses + (seq![27u8, 93] + seq![49u8, 50] + seq![59u8] + x11_text(
                    s.theme.cursor,
                ) + end),
                ..s
            };
            &&& s.colors_asked(Some(NamedColor::Foreground), first, bel) == told.colors_asked(
                Some(NamedColor::Background),
                rest,
                bel,
            )
            &&& s.colors_asked(Some(NamedColor::Background), first, bel) == next.colors_asked(
                Some(NamedColor::Cursor),
                rest,
                bel,
            )
            &&& s.colors_asked(Some(NamedColor::Cursor), first, bel) == last
            &&& s.colors_asked(Some(NamedColor::Foreground), Seq::empty(), bel) == s
        }),
{
    let first = seq![seq![63u8]] + rest;
    assert(first[0] == seq![63u8]);
    assert(first.skip(1) =~= rest);
    reveal_strlit("?");
    reveal_strlit("\x1b]");
    reveal_strlit(";");
    reveal_strlit("\x1b\\");
    lemma_ascii("?"@, seq![63u8]);
    lemma_ascii("\x1b]"@, seq![27u8, 93]);
    lemma_ascii(";"@, seq![59u8]);
    lemma_ascii("\x1b\\"@, seq![27u8, 92]);
    reveal_with_fuel(decimal, 2);
    assert(decimal(10) =~= seq![49u8, 48]);
    assert(decimal(11) =~= seq![49u8, 49]);
    assert(decimal(12) =~= seq![49u8, 50]);
    assert(NamedColor::Foreground.number() == 10 && NamedColor::Background.number() == 11
        && NamedColor::Cursor.number() == 12);
    let q = seq![63u8];
    let f = s.color_asked(NamedColor::Foreground, q, bel);
    let b = s.color_asked(NamedColor::Background, q, bel);
    let c = s.color_asked(NamedColor::Cursor, q, bel);
    assert(s.colors_asked(Some(NamedColor::Foreground), first, bel) == f.colors_asked(
        Some(NamedColor::Background),
        rest,
        bel,
    ));
    assert(s.colors_asked(Some(NamedColor::Background), first, bel) == b.colors_asked(
        Some(NamedColor::Cursor),
        rest,
        bel,
    ));
    assert(c.colors_asked(None, rest, bel) == c);
    assert(s.colors_asked(Some(NamedColor::Cursor), first, bel) == c);
}

/// Resetting the palette (104) without naming entries puts every entry back at its default
/// and leaves the named colours; naming one puts that one back.
pub proof fn lemma_palette_reset(s: ScreenView, index: Seq<u8>, bel: bool)
    requires
        s.theme.palette.len() == 256,
        one_field(index),
        byte_field(index) is Some,
    ensures
        ({
            let i = byte_field(index)->0 as int;
            let t = osc(s, seq![49u8, 48, 52], Seq::empty(), bel);
            let u = osc(s, seq![49u8, 48, 52], index, bel);
            &&& t == (ScreenView {
                theme: ThemeView { palette: t.theme.palette, ..s.theme },
                ..s
            })
            &&& t.theme.palette.len() == 256
            &&& forall|j: int|
                0 <= j < 256 ==> #[trigger] t.theme.palette[j] == default_shade(j)
            &&& u == (ScreenView {
                theme: ThemeView {
                    palette: s.theme.palette.update(i, default_shade(i)),
                    ..s.theme
                },
                ..s
            })
        }),
{
    lemma_palette_commands(s, Seq::empty(), bel);
    lemma_palette_commands(s, index, bel);
    lemma_fields_single(index, 59);
    let list = seq![index];
    assert(list.skip(1) =~= Seq::empty());
    reveal_with_fuel(ThemeView::entries_reset, 2);
    assert(s.theme.entries_reset(list) == s.theme.with_entry(
        byte_field(index)->0,
        default_shade(byte_field(index)->0 as int),
    ));
}

} // verus!
