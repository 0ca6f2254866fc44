//! The screen as text, for people and for comparisons.
use vstd::prelude::*;
use crate::cell::Cell;
use crate::codec::{
    escape_reply, is_space, lemma_trim_end, replies, reply_text, space_char, split_replies,
    text_chars, trim_end,
};
use crate::color::Color;
use crate::fields::fields_view;
use crate::screen::{Screen, ScreenView};
use crate::text::{decimal_text, push_number, quote_char, quote_text, quoted_char, quoted_text};

verus! {

/// A switch as a dump shows it.
#[verifier::opaque]
pub open spec fn flag_text(name: Seq<char>, on: bool) -> Seq<char> {
    name + (if on {
        "true"@
    } else {
        "false"@
    })
}

/// Whether a cell has a line of its own in the style key: anything but default colours and
/// no attributes.
pub open spec fn styled(c: Cell) -> bool {
    c.fg != Color::Default || c.bg != Color::Default || !c.attrs.plain()
}

/// The line of a cell in the style key.
pub open spec fn style_line(row: int, col: int, c: Cell) -> Seq<char> {
    if !styled(c) {
        Seq::empty()
    } else {
        "r"@ + decimal_text(row as nat) + "c"@ + decimal_text(col as nat) + " "@ + quoted_char(
            c.rune,
        ) + " fg="@ + c.fg.text() + " bg="@ + c.bg.text() + " "@ + c.attrs.text() + "\n"@
    }
}

/// Replies, one to a line.
pub open spec fn reply_lines(list: Seq<Seq<u8>>) -> Seq<char>
    decreases list.len(),
{
    if list.len() == 0 {
        Seq::empty()
    } else {
        reply_lines(list.drop_last()) + reply_text(list.last()) + "\n"@
    }
}

impl ScreenView {
    /// A visible row as text: base runes with their marks, wide spacers skipped.
    pub open spec fn row_text(self, row: int) -> Seq<char> {
        if 0 <= row < self.active().lines.len() {
            let line = self.active().lines[row];
            line.text(0, line.cells.len() as int)
        } else {
            Seq::empty()
        }
    }

    /// The first `n` visible rows, trailing white space dropped, a line each.
    pub open spec fn rows_text(self, n: int) -> Seq<char>
        decreases n,
    {
        if n <= 0 {
            Seq::empty()
        } else {
            let row = self.row_text(n - 1);
            let trimmed = row.take(trim_end(row));
            if n == 1 {
                trimmed
            } else {
                self.rows_text(n - 1) + "\n"@ + trimmed
            }
        }
    }

    /// The first `n` visible rows between bars, the soft-wrapped ones flagged.
    pub open spec fn grid_text(self, n: int) -> Seq<char>
        decreases n,
    {
        if n <= 0 {
            Seq::empty()
        } else {
            self.grid_text(n - 1) + "|"@ + self.row_text(n - 1) + "|"@ + (if self.active().lines[n
                - 1].wrapped {
                " wrapped"@
            } else {
                Seq::empty()
            }) + "\n"@
        }
    }

    /// The style key of the first `k` cells of a row.
    pub open spec fn row_styles(self, row: int, k: int) -> Seq<char>
        decreases k,
    {
        if k <= 0 {
            Seq::empty()
        } else {
            self.row_styles(row, k - 1) + style_line(row, k - 1, self.active().cell_at(row, k - 1))
        }
    }

    /// The style key of the first `n` rows.
    pub open spec fn styles_text(self, n: int) -> Seq<char>
        decreases n,
    {
        if n <= 0 {
            Seq::empty()
        } else {
            self.styles_text(n - 1) + self.row_styles(n - 1, self.active().cols as int)
        }
    }

    /// The flags about the screen.
    pub open spec fn screen_flags(self) -> Seq<char> {
        flag_text("flags alt="@, self.on_alt) + flag_text(" autowrap="@, self.modes.autowrap)
            + flag_text(" origin="@, self.modes.origin_mode) + flag_text(
            " insert="@,
            self.modes.insert_mode,
        )
    }

    /// The flags about the cursor and the keys.
    pub open spec fn input_flags(self) -> Seq<char> {
        flag_text(" cursor_vis="@, self.output.cursor_visible) + flag_text(
            " bracketed="@,
            self.input.bracketed_paste,
        ) + flag_text(" appcursor="@, self.input.app_cursor_keys) + flag_text(
            " keypad="@,
            self.input.keypad_app,
        )
    }

    /// The size, the cursor, the flags and the title.
    pub open spec fn header_text(self) -> Seq<char> {
        let b = self.active();
        "size "@ + decimal_text(b.cols as nat) + "x"@ + decimal_text(b.rows as nat) + "\ncursor "@
            + decimal_text(b.cursor.row as nat) + ","@ + decimal_text(b.cursor.col as nat) + "\n"@
            + self.screen_flags() + self.input_flags() + "\ntitle "@ + quoted_text(self.title) + "\n"@
    }

    /// What was queued for the child, where anything was.
    pub open spec fn replies_text(self) -> Seq<char> {
        if self.responses.len() == 0 {
            Seq::empty()
        } else {
            "replies:\n"@ + reply_lines(replies(self.responses))
        }
    }

    /// The whole state, readable.
    pub open spec fn snapshot_text(self) -> Seq<char> {
        let rows = self.active().rows as int;
        self.header_text() + "grid:\n"@ + self.grid_text(rows) + "style:\n"@ + self.styles_text(
            rows,
        ) + self.replies_text()
    }
}

fn push_flag(out: &mut String, name: &str, on: bool)
    ensures
        final(out)@ == old(out)@ + flag_text(name@, on),
{
    reveal(flag_text);
    out.push_str(name);
    if on {
        out.push_str("true");
    } else {
        out.push_str("false");
    }
    assert(out@ =~= old(out)@ + flag_text(name@, on));
}

fn push_style_line(out: &mut String, row: usize, col: usize, cell: Cell)
    ensures
        final(out)@ == old(out)@ + style_line(row as int, col as int, cell),
{
    let plain: bool = is_default(cell.fg) && is_default(cell.bg) && cell.attrs.is_empty();
    if !plain {
        out.push_str("r");
        push_number(out, row);
        out.push_str("c");
        push_number(out, col);
        out.push_str(" ");
        let rune = quote_char(cell.rune);
        out.push_str(rune.as_str());
        out.push_str(" fg=");
        cell.fg.describe(out);
        out.push_str(" bg=");
        cell.bg.describe(out);
        out.push_str(" ");
        let attrs = cell.attrs.describe();
        out.push_str(attrs.as_str());
        out.push_str("\n");
    }
    assert(out@ =~= old(out)@ + style_line(row as int, col as int, cell));
}

fn is_default(c: Color) -> (r: bool)
    ensures
        r == (c == Color::Default),
{
    match c {
        Color::Default => true,
        _ => false,
    }
}

/// Drop the white space at the end of a text.
fn drop_trailing_space(text: &mut String)
    ensures
        final(text)@ == old(text)@.take(trim_end(old(text)@)),
{
    let chars = text_chars(text.as_str());
    let ghost full = text@;
    let mut n: usize = chars.len();
    assert(full.take(n as int) =~= full);
    while n > 0 && is_space(chars[n - 1])
        invariant
            n <= full.len(),
            chars@ == full,
            text@ == full.take(n as int),
            forall|i: int| n <= i < full.len() ==> space_char(#[trigger] full[i]),
        decreases n,
    {
        assert(text@.drop_last() =~= full.take(n - 1));
        text.pop();
        n = n - 1;
    }
    proof {
        lemma_trim_end(full, n as int);
    }
}

impl Screen {
    /// A visible row as text: base runes with their combining marks, wide spacers skipped.
    pub fn row_string(&self, row: usize) -> (r: String)
        ensures
            r@ == self@.row_text(row as int),
    {
        let mut out = String::new();
        assert(out@ =~= Seq::empty());
        if let Some(line) = self.active().line(row) {
            line.push_text(0, line.cells.len(), &mut out);
            assert(Seq::<char>::empty() + line@.text(0, line@.cells.len() as int) =~= line@.text(
                0,
                line@.cells.len() as int,
            ));
        }
        out
    }

    /// The whole visible screen as text, one row per line, trailing blanks trimmed.
    pub fn dump(&self) -> (r: String)
        requires
            self.wf(),
        ensures
            r@ == self@.rows_text(self@.active().rows as int),
    {
        let rows: usize = self.dimensions().1;
        let mut out = String::new();
        assert(out@ =~= Seq::empty());
        let mut r: usize = 0;
        while r < rows
            invariant
                r <= rows,
                out@ == self@.rows_text(r as int),
            decreases rows - r,
        {
            let ghost before = out@;
            let mut line = self.row_string(r);
            drop_trailing_space(&mut line);
            if r > 0 {
                out.push_str("\n");
            }
            out.push_str(line.as_str());
            assert(out@ =~= self@.rows_text(r + 1));
            r = r + 1;
        }
        out
    }

    fn push_screen_flags(&self, out: &mut String)
        ensures
            final(out)@ == old(out)@ + self@.screen_flags(),
    {
        push_flag(out, "flags alt=", self.on_alt);
        push_flag(out, " autowrap=", self.modes.autowrap);
        push_flag(out, " origin=", self.modes.origin_mode);
        push_flag(out, " insert=", self.modes.insert_mode);
        assert(out@ =~= old(out)@ + self@.screen_flags());
    }

    fn push_input_flags(&self, out: &mut String)
        ensures
            final(out)@ == old(out)@ + self@.input_flags(),
    {
        push_flag(out, " cursor_vis=", self.output.cursor_visible);
        push_flag(out, " bracketed=", self.input.bracketed_paste);
        push_flag(out, " appcursor=", self.input.app_cursor_keys);
        push_flag(out, " keypad=", self.input.keypad_app);
        assert(out@ =~= old(out)@ + self@.input_flags());
    }

    fn push_header(&self, out: &mut String)
        ensures
            final(out)@ == old(out)@ + self@.header_text(),
    {
        let (cols, rows) = self.dimensions();
        let (row, col) = self.cursor();
        out.push_str("size ");
        push_number(out, cols);
        out.push_str("x");
        push_number(out, rows);
        out.push_str("\ncursor ");
        push_number(out, row);
        out.push_str(",");
        push_number(out, col);
        out.push_str("\n");
        self.push_screen_flags(out);
        self.push_input_flags(out);
        out.push_str("\ntitle ");
        let title = quote_text(self.title.as_str());
        out.push_str(title.as_str());
        out.push_str("\n");
        assert(out@ =~= old(out)@ + self@.header_text());
    }

    fn push_grid(&self, out: &mut String)
        requires
            self.wf(),
        ensures
            final(out)@ == old(out)@ + self@.grid_text(self@.active().rows as int),
    {
        let rows: usize = self.dimensions().1;
        let mut r: usize = 0;
        assert(out@ =~= old(out)@ + self@.grid_text(0));
        while r < rows
            invariant
                r <= rows,
                self.wf(),
                rows == self@.active().rows,
                out@ == old(out)@ + self@.grid_text(r as int),
            decreases rows - r,
        {
            let row = self.row_string(r);
            out.push_str("|");
            out.push_str(row.as_str());
            out.push_str("|");
            if self.row_wraps(r) {
                out.push_str(" wrapped");
            }
            out.push_str("\n");
            assert(out@ =~= old(out)@ + self@.grid_text(r + 1));
            r = r + 1;
        }
    }

    fn push_row_styles(&self, out: &mut String, row: usize)
        requires
            self.wf(),
        ensures
            final(out)@ == old(out)@ + self@.row_styles(row as int, self@.active().cols as int),
    {
        let cols: usize = self.dimensions().0;
        let mut c: usize = 0;
        assert(out@ =~= old(out)@ + self@.row_styles(row as int, 0));
        while c < cols
            invariant
                c <= cols,
                out@ == old(out)@ + self@.row_styles(row as int, c as int),
            decreases cols - c,
        {
            push_style_line(out, row, c, self.cell(row, c));
            assert(out@ =~= old(out)@ + self@.row_styles(row as int, c + 1));
            c = c + 1;
        }
    }

    fn push_styles(&self, out: &mut String)
        requires
            self.wf(),
        ensures
            final(out)@ == old(out)@ + self@.styles_text(self@.active().rows as int),
    {
        let rows: usize = self.dimensions().1;
        let mut r: usize = 0;
        assert(out@ =~= old(out)@ + self@.styles_text(0));
        while r < rows
            invariant
                r <= rows,
                self.wf(),
                out@ == old(out)@ + self@.styles_text(r as int),
            decreases rows - r,
        {
            self.push_row_styles(out, r);
            assert(out@ =~= old(out)@ + self@.styles_text(r + 1));
            r = r + 1;
        }
    }

    fn push_replies(&self, out: &mut String)
        ensures
            final(out)@ == old(out)@ + self@.replies_text(),
    {
        if self.responses.len() == 0 {
            assert(out@ =~= old(out)@ + self@.replies_text());
            return;
        }
        out.push_str("replies:\n");
        let list = split_replies(self.responses.as_slice());
        let ghost all = replies(self.responses@);
        let mut i: usize = 0;
        assert(out@ =~= old(out)@ + ("replies:\n"@ + reply_lines(all.take(0))));
        while i < list.len()
            invariant
                i <= list@.len(),
                fields_view(list@) == all,
                out@ == old(out)@ + ("replies:\n"@ + reply_lines(all.take(i as int))),
            decreases list.len() - i,
        {
            assert(all[i as int] == list@[i as int]@);
            assert(all.take(i + 1).drop_last() =~= all.take(i as int));
            let line = escape_reply(list[i].as_slice());
            out.push_str(line.as_str());
            out.push_str("\n");
            assert(out@ =~= old(out)@ + ("replies:\n"@ + reply_lines(all.take(i + 1))));
            i = i + 1;
        }
        assert(all.take(i as int) =~= all);
    }

    /// A complete, human-diffable snapshot of the terminal state: dimensions, cursor, mode
    /// flags, the visible grid as text, every cell whose colours or attributes are not the
    /// default, and what was queued for the child.
    pub fn snapshot(&self) -> (r: String)
        requires
            self.wf(),
        ensures
            r@ == self@.snapshot_text(),
    {
        let mut out = String::new();
        self.push_header(&mut out);
        out.push_str("grid:\n");
        self.push_grid(&mut out);
        out.push_str("style:\n");
        self.push_styles(&mut out);
        self.push_replies(&mut out);
        assert(out@ =~= self@.snapshot_text());
        out
    }
}

} // verus!
