use bnkterm_grid::attrs::{Attrs, UnderlineStyle};
use bnkterm_grid::buffer::Buffer;
use bnkterm_grid::cell::{Cell, LinkId, Pen};
use bnkterm_grid::codec::{
    base64_decode, escape_reply, hex_decode, hex_encode, parse_i32, parse_u8, percent_decode,
    split_replies,
};
use bnkterm_grid::color::{hex_digit, parse_x11_color, write_x11_color, Color, Rgb};
use bnkterm_grid::fields::{split_fields, split_head};
use bnkterm_grid::grapheme::BreakState;
use bnkterm_grid::ids::{AbsRow, RowEpoch};
use bnkterm_grid::input::{KittyFlags, ModifyOtherKeys};
use bnkterm_grid::link::{can_open, find_at};
use bnkterm_grid::links::{LinkTable, LINK_LIMIT};
use bnkterm_grid::row::Row;
use bnkterm_grid::screen::Screen;
use bnkterm_grid::screen_resize::ResizeEffect;
use bnkterm_grid::select::{is_word_boundary, LinkProbe};
use bnkterm_grid::style::{CellWidth, PackedCell, PenStyle, Style, StyleId, StyleTable};
use bnkterm_grid::vt::{Params, Perform};
use bnkterm_grid::width::{cluster_width, width};

fn print_all(s: &mut Screen, text: &str) {
    for c in text.chars() {
        s.print(c);
    }
}

fn params(values: &[u16]) -> Params {
    Params::from_items(values.iter().map(|&v| vec![v]).collect())
}

fn styled(bold: bool, shade: u8) -> Style {
    let mut attrs = Attrs::empty();
    attrs.set(Attrs::bold(), bold);
    Style {
        fg: Color::Indexed(shade),
        bg: Color::Default,
        attrs,
    }
}

// ---- ids ---------------------------------------------------------------------------------

#[test]
fn row_ids_step_both_ways_and_stop_at_the_ends() {
    assert_eq!(AbsRow(4).next(), Some(AbsRow(5)));
    assert_eq!(AbsRow(5).prev(), Some(AbsRow(4)));
    assert_eq!(AbsRow(0).prev(), None);
    assert_eq!(AbsRow(u64::MAX).next(), None);
    assert_eq!(RowEpoch(u64::MAX).next(), RowEpoch(0));
    assert_eq!(RowEpoch(7).next(), RowEpoch(8));
}

// ---- attributes and cells ------------------------------------------------------------------

#[test]
fn a_run_key_ignores_what_is_not_drawn() {
    let mut a = Attrs::bold() | Attrs::reverse() | Attrs::hidden();
    assert_eq!(a.run_key(), Attrs::bold());
    a.set_underline_style(UnderlineStyle::Curly);
    assert_eq!(a.run_key(), Attrs::bold(), "a shape without an underline");
    a.insert(Attrs::underline());
    assert_eq!(a.run_key().underline_style(), UnderlineStyle::Curly);
    assert!(a.run_key().contains(Attrs::underline() | Attrs::bold()));
}

#[test]
fn an_underline_shape_shows_in_the_description() {
    let mut a = Attrs::underline();
    assert_eq!(a.describe(), "Attrs(UNDERLINE)");
    a.set_underline_style(UnderlineStyle::Dashed);
    assert_eq!(a.underline_style(), UnderlineStyle::Dashed);
    assert_ne!(a.describe(), "Attrs(UNDERLINE)");
}

#[test]
fn a_cell_describes_itself_with_its_rune_quoted() {
    let text = Cell::new('\n').describe();
    assert!(text.contains("'\\n'"), "{text}");
    assert!(text.starts_with("Cell("), "{text}");
}

// ---- packed cells and styles -------------------------------------------------------------------

#[test]
fn a_packed_cell_gives_back_what_went_in() {
    for rune in ['a', ' ', '\u{10ffff}', '\u{4e16}', '\0'] {
        for w in [CellWidth::Narrow, CellWidth::Leader, CellWidth::Spacer] {
            let p = PackedCell::new(rune, w, StyleId(7), LinkId(9));
            assert_eq!((p.rune(), p.width(), p.style_id(), p.link), (rune, w, StyleId(7), LinkId(9)));
        }
    }
    assert_eq!(std::mem::size_of::<PackedCell>(), 8);
    let bad = PackedCell {
        packed: 0xd800,
        style: StyleId(0),
        link: LinkId(0),
    };
    assert_eq!(bad.rune(), ' ', "no scalar reads as a space");
}

#[test]
fn a_packed_cell_changes_its_place_and_its_style_alone() {
    let p = PackedCell::plain('x').with_width(CellWidth::Leader);
    assert!(p.is_wide_leader());
    assert!(!p.is_wide_spacer());
    assert_eq!(p.rune(), 'x');
    let mut q = p;
    q.set_style_id(StyleId(3));
    assert_eq!(q.style_id(), StyleId(3));
    assert_eq!(q.width(), CellWidth::Leader);
    assert_eq!(q.describe(), "PackedCell('x', style=3, Leader)");
    assert_eq!(
        PackedCell::new('"', CellWidth::Spacer, StyleId(0), LinkId(12)).describe(),
        "PackedCell('\"', style=0, Spacer, link=12)"
    );
    assert!(PackedCell::default() == PackedCell::plain(' '));
}

#[test]
fn packing_and_resolving_gives_the_cell_back() {
    let mut table = StyleTable::new();
    let mut cell = Cell::new('\u{4e16}');
    cell.fg = Color::Rgb(1, 2, 3);
    cell.attrs = Attrs::bold() | Attrs::wide_leader();
    cell.link = LinkId(4);
    assert_eq!(cell.width(), CellWidth::Leader);
    assert_eq!(cell.style().attrs, Attrs::bold());
    let packed = table.pack(cell).expect("room");
    assert_eq!(packed.style_id(), StyleId(1));
    assert_eq!(table.resolve(packed), cell);
    let blank = table.pack(Cell::blank()).expect("room");
    assert_eq!(blank.style_id(), StyleId(0), "the default needs no entry");
    assert_eq!(table.resolve(blank), Cell::blank());
    assert_eq!(table.get(StyleId(999)), Style::default());
}

#[test]
fn a_style_sweep_keeps_what_is_cited_and_renumbers_it() {
    let mut table = StyleTable::new();
    let ids: Vec<StyleId> = (0..4)
        .map(|i| table.intern(styled(false, i)).expect("room"))
        .collect();
    assert_eq!(table.intern(styled(false, 2)), Some(ids[2]), "interned once");
    let mut cells = vec![
        PackedCell::new('a', CellWidth::Narrow, ids[3], LinkId::none()),
        PackedCell::new('b', CellWidth::Narrow, ids[1], LinkId::none()),
    ];
    let pen = table.collect_styles(&mut cells, ids[0]);
    assert_eq!(table.styles.len(), 3);
    assert_eq!(table.get(pen), styled(false, 0));
    assert_eq!(table.get(cells[0].style_id()), styled(false, 3));
    assert_eq!(table.get(cells[1].style_id()), styled(false, 1));
}

#[test]
fn a_full_style_table_sweeps_once_and_hands_out_the_default() {
    let mut table = StyleTable::new();
    for i in 0..65534u32 {
        let style = Style {
            fg: Color::Rgb((i >> 16) as u8, (i >> 8) as u8, i as u8),
            bg: Color::Ansi(1),
            attrs: Attrs::empty(),
        };
        assert_eq!(table.intern(style), Some(StyleId(i as u16 + 1)));
    }
    let at = (RowEpoch(0), 0);
    let mut cells: Vec<PackedCell> = (1..=65534u16)
        .map(|i| PackedCell::new('x', CellWidth::Narrow, StyleId(i), LinkId::none()))
        .collect();
    let fresh = styled(true, 1);
    assert_eq!(table.intern(fresh), None);
    let (id, pen) = table.intern_style(fresh, &mut cells, StyleId(5), at);
    assert_eq!((id, pen), (StyleId(0), StyleId(5)), "everything is cited");
    assert_eq!(table.swept_dry_at, Some(at));
    cells.truncate(10);
    let (id, _) = table.intern_style(fresh, &mut cells, StyleId(5), at);
    assert_eq!(id, StyleId(0), "not swept again in the same place");
    let (id, pen) = table.intern_style(fresh, &mut cells, StyleId(5), (RowEpoch(1), 0));
    assert_eq!((id, pen), (StyleId(11), StyleId(5)));
    assert_eq!(table.get(id), fresh);
}

#[test]
fn a_packed_pen_is_interned_while_it_changes() {
    let mut table = StyleTable::new();
    let mut cells = Vec::new();
    let mut last = PenStyle {
        style: Style::default(),
        id: StyleId(0),
    };
    let at = (RowEpoch(0), 0);
    let mut pen = Pen::initial();
    assert_eq!(table.packed_pen(pen, &mut last, &mut cells, at).style, StyleId(0));
    pen.fg = Color::Ansi(3);
    pen.link = LinkId(8);
    let packed = table.packed_pen(pen, &mut last, &mut cells, at);
    assert_eq!((packed.style, packed.link), (StyleId(1), LinkId(8)));
    assert_eq!(last.style, pen.style());
    assert_eq!(table.packed_pen(pen, &mut last, &mut cells, at), packed);
    assert_eq!(table.styles.len(), 1);
}

// ---- codecs --------------------------------------------------------------------------------------

#[test]
fn hex_goes_out_and_comes_back() {
    let mut out = b"x".to_vec();
    hex_encode(&[0x00, 0x7f, 0xff], &mut out);
    assert_eq!(hex_decode(&out[1..]), Some(vec![0x00, 0x7f, 0xff]));
    assert_eq!(hex_decode(b"4a4B"), Some(b"JK".to_vec()));
    assert_eq!(hex_decode(b"4"), None);
    assert_eq!(hex_decode(b"4g"), None);
    assert_eq!(hex_decode(b""), None);
    assert_eq!(hex_digit(b'F'), Some(15));
    assert_eq!(hex_digit(b'g'), None);
}

#[test]
fn percent_escapes_are_decoded_and_bad_bytes_replaced() {
    assert_eq!(percent_decode(b"/a%20b"), "/a b");
    assert_eq!(percent_decode(b"/100%"), "/100%");
    assert_eq!(percent_decode(b"/%zz"), "/%zz");
    assert_eq!(percent_decode("/%c3%a9".as_bytes()), "/\u{e9}");
    assert_eq!(percent_decode(b"/%ff"), "/\u{fffd}");
}

#[test]
fn numbers_in_fields_are_plain_decimals() {
    assert_eq!(parse_u8(b"255"), Some(255));
    assert_eq!(parse_u8(b"256"), None);
    assert_eq!(parse_u8(b""), None);
    assert_eq!(parse_u8(b"1x"), None);
    assert_eq!(parse_i32(b"-2147483648"), Some(i32::MIN));
    assert_eq!(parse_i32(b"2147483648"), None);
    assert_eq!(parse_i32(b" 7 "), Some(7));
    assert_eq!(parse_i32(b"\xff"), None);
    assert_eq!(parse_i32(b"-"), None);
}

#[test]
fn replies_are_split_and_named() {
    let list = split_replies(b"\x1b[0n\x1b[1;1R");
    assert_eq!(list.len(), 2);
    assert_eq!(escape_reply(&list[0]), "<ESC>[0n");
    assert_eq!(escape_reply(&[0x07, 0x01]), "<BEL><0x01>");
}

#[test]
fn base64_of_text_decodes() {
    assert_eq!(base64_decode(b"Zm9vYmFy"), Some(b"foobar".to_vec()));
    assert_eq!(base64_decode(b"Zm9v*"), None);
}

#[test]
fn base64_padding_is_complete_or_absent() {
    assert_eq!(base64_decode(b"eA="), None, "half of its padding");
    assert_eq!(base64_decode(b"="), None);
    assert_eq!(base64_decode(b"=="), None);
    assert_eq!(base64_decode(b"Zm9v="), None);
    assert_eq!(base64_decode(b"Zm9v=="), None);
    assert_eq!(base64_decode(b"eA=="), Some(b"x".to_vec()));
    assert_eq!(base64_decode(b"eA"), Some(b"x".to_vec()));
    assert_eq!(base64_decode(b"eHk="), Some(b"xy".to_vec()));
    assert_eq!(base64_decode(b" e\nH\tk =\r"), Some(b"xy".to_vec()));
    assert_eq!(base64_decode(b"e H k"), Some(b"xy".to_vec()));
    assert_eq!(base64_decode(b"\n"), Some(Vec::new()));
}

#[test]
fn fields_split_at_every_separator() {
    assert_eq!(
        split_fields(b"a;;b", b';'),
        vec![b"a".to_vec(), b"".to_vec(), b"b".to_vec()]
    );
    assert_eq!(split_fields(b"", b';'), vec![b"".to_vec()]);
    assert_eq!(split_head(b"k;v;w", b';'), (&b"k"[..], &b"v;w"[..]));
    assert_eq!(split_head(b"k", b';'), (&b"k"[..], &b""[..]));
}

#[test]
fn a_written_colour_is_read_back() {
    for c in [Rgb::new(0, 0, 0), Rgb::new(0x12, 0xab, 0xff)] {
        let mut out = Vec::new();
        write_x11_color(c, &mut out);
        assert_eq!(parse_x11_color(&out), Some(c));
    }
    assert_eq!(parse_x11_color(b"rgb:zz/00/00"), None);
}

// ---- widths, clusters and urls -----------------------------------------------------------------------

#[test]
fn widths_of_single_characters() {
    assert_eq!(width('a'), 1);
    assert_eq!(width('\u{4e16}'), 2);
    assert_eq!(width('\u{301}'), 0);
    assert_eq!(cluster_width(&vec!['\u{1F1EB}', '\u{1F1F7}']), 2);
    assert_eq!(cluster_width(&vec!['#', '\u{fe0f}', '\u{20e3}']), 2);
    assert_eq!(cluster_width(&vec!['e', '\u{301}']), 1);
}

#[test]
fn clusters_break_between_characters() {
    let mut state = BreakState::start();
    assert!(state.breaks_before('e'));
    assert!(!state.breaks_before('\u{301}'));
    assert!(state.breaks_before('x'));
    state.reset();
    assert_eq!(state, BreakState::start());
}

#[test]
fn a_url_is_found_around_a_position() {
    let text: Vec<char> = "see https://e.com/a, ok".chars().collect();
    let (start, end) = find_at(&text, 10).expect("inside the url");
    assert_eq!(text[start..end].iter().collect::<String>(), "https://e.com/a");
    assert_eq!(find_at(&text, 1), None);
    assert_eq!(find_at(&text, 999), None);
    assert!(can_open("https://e.com"));
    assert!(can_open("file:///tmp/x"));
    assert!(!can_open("javascript:alert(1)"));
    assert!(is_word_boundary(' '));
    assert!(!is_word_boundary('a'));
}

#[test]
fn a_link_table_interns_once_and_refuses_when_full() {
    let mut t = LinkTable::new();
    let a = t.intern("http://a").expect("room");
    let b = t.intern("http://b").expect("room");
    assert_ne!(a, b);
    assert_eq!(t.intern("http://a"), Some(a));
    assert_eq!(t.url(b), Some("http://b"));
    assert_eq!(t.url(LinkId::none()), None);
    let ids = t.compact(&vec![false, false, true]);
    assert_eq!(ids, vec![LinkId(0), LinkId(0), LinkId(1)]);
    assert_eq!(t.url(LinkId(1)), Some("http://b"));
    for i in 1..LINK_LIMIT {
        assert!(t.intern(&format!("http://{i}")).is_some());
    }
    assert_eq!(t.intern("http://one-more"), None);
    assert_eq!(t.intern("http://b"), Some(LinkId(1)), "a known one is never refused");
}

// ---- rows and buffers ----------------------------------------------------------------------------------

#[test]
fn a_row_keeps_its_wide_pairs_whole() {
    let mut r = Row::filled(6, Cell::blank());
    let pen = Pen::initial();
    r.write_run(1, &vec![pen.leader_cell('\u{4e16}'), pen.spacer_cell()]);
    assert!(r.cells[1].is_wide_leader() && r.cells[2].is_wide_spacer());
    r.insert_blanks(0, 1, Cell::blank());
    assert!(r.cells[2].is_wide_leader() && r.cells[3].is_wide_spacer());
    r.clear_range(3, 4, Cell::blank());
    assert!(r.cells.iter().all(|c| !c.is_wide_leader() && !c.is_wide_spacer()));
    r.write_cell(0, Cell::new('q'));
    r.add_mark(0, '\u{301}');
    assert_eq!(r.marks(0), vec!['\u{301}']);
    r.delete_chars(0, 1, Cell::blank());
    assert!(!r.has_marks(0));
    r.widen(2);
    assert!(r.cells[2].is_wide_leader() && r.cells[3].is_wide_spacer());
    r.resize_cols(3);
    assert_eq!(r.cells.len(), 3);
    assert!(!r.cells[2].is_wide_leader());
}

#[test]
fn a_full_ring_evicts_and_its_ids_move_on() {
    let mut b = Buffer::new(3, 2, 2);
    for n in 0..5u8 {
        b.write_cell(0, 0, Cell::new(char::from(b'a' + n)));
        let out = b.scroll_up_range(0, 1, 1, Cell::blank(), true);
        assert_eq!((out.pushed, out.renumbered), (1, false));
    }
    assert_eq!(b.scrollback.len(), 2);
    assert_eq!(b.evicted, 3);
    assert!(b.abs_row(AbsRow(2)).is_none());
    assert_eq!(b.abs_row(AbsRow(3)).map(|r| r.cells[0].rune), Some('d'));
    assert_eq!(b.abs_end(), AbsRow(7));
    b.clear_history();
    assert_eq!(b.evicted, 5);
    assert_eq!(b.abs_of(0), AbsRow(5));
}

#[test]
fn a_region_scroll_reports_that_it_renumbered() {
    let mut b = Buffer::new(3, 4, 10);
    let part = b.scroll_up_range(0, 1, 1, Cell::blank(), true);
    assert_eq!((part.pushed, part.renumbered), (1, true));
    let inner = b.scroll_up_range(1, 2, 1, Cell::blank(), true);
    assert_eq!((inner.pushed, inner.renumbered), (0, true));
    let down = b.scroll_down_range(0, 3, 1, Cell::blank());
    assert_eq!((down.pushed, down.renumbered), (0, true));
    let none = b.scroll_up_range(0, 3, 0, Cell::blank(), true);
    assert_eq!((none.pushed, none.renumbered), (0, false));
}

#[test]
fn a_reflow_to_no_size_at_all_is_one_cell() {
    let mut b = Buffer::new(3, 2, 10);
    b.write_cell(0, 0, Cell::new('a'));
    let (view, _) = b.reflow(0, 0, 0, 10);
    assert_eq!((b.cols, b.rows, view), (1, 1, 0));
}

// ---- the screen ------------------------------------------------------------------------------------------

#[test]
fn a_run_lands_as_its_characters_would() {
    let text: Vec<char> = "ab\u{4e16}c\u{301}d\u{754c}efghij\u{4e16}".chars().collect();
    let mut bulk = Screen::new(5, 3);
    let mut each = Screen::new(5, 3);
    Perform::print_run(&mut bulk, &text);
    for &c in &text {
        each.print(c);
    }
    assert_eq!(bulk.snapshot(), each.snapshot());
    assert_eq!(bulk.last_printed, each.last_printed);
}

#[test]
fn an_empty_run_changes_nothing() {
    let mut s = Screen::new(5, 2);
    s.print('x');
    Perform::print_ascii(&mut s, b"");
    Perform::print_run(&mut s, &[]);
    s.repeat_last(2);
    assert_eq!(s.row_string(0).trim_end(), "xxx");
}

#[test]
fn a_line_in_history_keeps_its_id_and_text() {
    let mut s = Screen::new(4, 2);
    print_all(&mut s, "one");
    let id = s.abs_row(0);
    let epoch = s.row_epoch();
    for _ in 0..6 {
        s.next_line();
        print_all(&mut s, "more text than fits");
    }
    assert_eq!(s.row_epoch(), epoch);
    assert!(s.row_exists(id));
    assert_eq!(s.selection_text((id, 0), (id, 3)), "one");
    assert_eq!(s.abs_cell(id, 0).rune, 'o');
    assert_eq!(s.display_row(id), None);
    s.scroll_view_to_top();
    assert_eq!(s.display_row(id), Some(0));
    assert_eq!(s.abs_row(0), id);
}

#[test]
fn a_prompt_marked_while_the_view_is_scrolled_names_the_cursors_line() {
    let mut s = Screen::new(4, 2);
    for _ in 0..4 {
        s.next_line();
    }
    let here = s.abs_row(s.cursor().0);
    s.scroll_view_up(2);
    s.osc_dispatch(b"133;A", true);
    assert_eq!(s.prompts()[0].row, here);
}

#[test]
fn a_cursor_is_found_where_it_was_sent() {
    let mut s = Screen::new(10, 6);
    s.move_to(3, 7);
    s.csi_dispatch(&params(&[6]), b"", 0, b'n');
    assert_eq!(s.take_responses(), b"\x1b[4;8R");
    s.set_scroll_region(1, 4);
    s.set_mode(6, true, true);
    s.move_to(2, 1);
    assert_eq!(s.cursor(), (3, 1));
    s.csi_dispatch(&params(&[6]), b"", b'?', b'n');
    assert_eq!(s.take_responses(), b"\x1b[?3;2;1R");
}

#[test]
fn a_mode_reads_back_as_it_was_set() {
    let mut s = Screen::new(10, 4);
    for mode in [1u16, 6, 7, 12, 25, 1004, 1006, 2004, 2026, 2027, 2048] {
        for on in [true, false, true] {
            s.set_mode(mode, true, on);
            assert_eq!(s.mode_state(mode, true), Some(on), "mode {mode}");
        }
    }
    s.set_mode(4, false, true);
    assert_eq!(s.mode_state(4, false), Some(true));
    assert_eq!(s.mode_state(9999, true), None);
}

#[test]
fn the_region_that_is_told_is_the_region_that_was_set() {
    let mut s = Screen::new(10, 6);
    s.set_scroll_region(1, 3);
    s.decrqss(b"r");
    assert_eq!(s.take_responses(), b"\x1bP1$r2;4r\x1b\\");
    s.decrqss(b"z");
    assert_eq!(s.take_responses(), b"\x1bP0$r\x1b\\");
}

#[test]
fn the_rendition_that_is_told_puts_the_pen_back() {
    let mut s = Screen::new(4, 1);
    s.sgr(&Params::from_items(vec![
        vec![1],
        vec![4, 3],
        vec![38],
        vec![5],
        vec![200],
        vec![48, 2, 1, 2, 3],
    ]));
    let pen = s.pen;
    s.decrqss(b"m");
    assert_eq!(
        s.take_responses(),
        b"\x1bP1$r0;1;4:3;38;5;200;48;2;1;2;3m\x1b\\"
    );
    s.sgr(&params(&[]));
    assert_eq!(s.pen, Pen::initial());
    s.sgr(&Params::from_items(vec![
        vec![0],
        vec![1],
        vec![4, 3],
        vec![38],
        vec![5],
        vec![200],
        vec![48],
        vec![2],
        vec![1],
        vec![2],
        vec![3],
    ]));
    assert_eq!(s.pen, pen);
}

#[test]
fn pushed_keyboard_flags_are_popped_again() {
    let mut s = Screen::new(4, 1);
    s.kitty_keyboard(&params(&[1]), b'=');
    let before = s.kitty_flags();
    s.kitty_keyboard(&params(&[3]), b'>');
    assert_eq!(s.kitty_flags(), KittyFlags::supported());
    s.kitty_keyboard(&params(&[]), b'<');
    assert_eq!(s.kitty_flags(), before);
    s.xtmodkeys(&params(&[4, 2]));
    assert_ne!(s.modify_other_keys(), ModifyOtherKeys::Off);
    s.xtmodkeys(&params(&[4]));
    assert_eq!(s.modify_other_keys(), ModifyOtherKeys::Off);
}

#[test]
fn a_saved_cursor_comes_back_with_its_pen() {
    let mut s = Screen::new(10, 4);
    s.move_to(2, 5);
    s.sgr(&params(&[31]));
    let pen = s.pen;
    s.save_cursor();
    s.sgr(&params(&[0]));
    s.move_to(0, 0);
    s.restore_cursor();
    assert_eq!(s.cursor(), (2, 5));
    assert_eq!(s.pen, pen);
}

#[test]
fn a_saved_cursor_outlives_whatever_comes_between() {
    let mut s = Screen::new(6, 4);
    s.esc_dispatch(b"(", b'0');
    s.osc_dispatch(b"8;;http://e.com/a", true);
    s.sgr(&params(&[1, 32, 45]));
    s.set_scroll_region(1, 3);
    s.set_mode(6, true, true);
    s.move_to(0, 0);
    print_all(&mut s, "abcdef");
    let (pen, charsets) = (s.pen, s.charsets);
    let cursor = s.primary.cursor;
    assert!(cursor.pending_wrap);
    s.save_cursor();
    print_all(&mut s, "more than one row of it");
    s.sgr(&params(&[0]));
    s.osc_dispatch(b"8;;http://e.com/b", true);
    s.osc_dispatch(b"8;;", true);
    s.esc_dispatch(b"(", b'B');
    s.esc_dispatch(b")", b'0');
    s.execute(14);
    s.set_mode(6, true, false);
    s.csi_dispatch(&params(&[2, 3]), b"", 0, b'H');
    s.csi_dispatch(&params(&[2]), b"", 0, b'L');
    let rows: Vec<String> = (0..4).map(|r| s.row_string(r)).collect();
    s.restore_cursor();
    for _ in 0..2 {
        assert_eq!(s.primary.cursor, cursor);
        assert_eq!(s.pen, pen);
        assert_eq!(s.charsets, charsets);
        assert_eq!(s.mode_state(6, true), Some(true));
        assert_eq!((0..4).map(|r| s.row_string(r)).collect::<Vec<String>>(), rows);
        s.restore_cursor();
    }
}

#[test]
fn a_collection_leaves_the_links_in_use_and_nothing_else() {
    let mut s = Screen::new(8, 2);
    for name in ["a", "b", "c", "d"] {
        s.osc_dispatch(format!("8;;http://e.com/{name}").as_bytes(), true);
        s.print('x');
    }
    s.erase_line(2);
    s.move_to(0, 0);
    s.osc_dispatch(b"8;;http://e.com/c", true);
    print_all(&mut s, "yy");
    s.osc_dispatch(b"8;;http://e.com/b", true);
    s.save_cursor();
    s.osc_dispatch(b"8;;", true);
    let before: Vec<Cell> = (0..8).map(|c| s.cell(0, c)).collect();
    s.collect_links();
    assert_eq!(s.links.urls, vec!["http://e.com/b", "http://e.com/c"]);
    assert_eq!(s.pen.link, LinkId::none());
    for (c, was) in before.into_iter().enumerate() {
        let link = if was.link.is_set() { LinkId(2) } else { LinkId::none() };
        assert_eq!(s.cell(0, c), Cell { link, ..was });
    }
    s.restore_cursor();
    assert_eq!(s.pen.link, LinkId(1));
}

#[test]
fn a_selection_has_a_newline_for_every_hard_break() {
    let mut s = Screen::new(4, 3);
    print_all(&mut s, "abcdef  ");
    s.next_line();
    s.next_line();
    print_all(&mut s, "gh");
    s.next_line();
    print_all(&mut s, "i  j");
    let a = (AbsRow(0), 1);
    let b = (AbsRow(4), 3);
    let text = s.selection_text(a, b);
    assert_eq!(text, "bcdef\n\ngh\ni  j");
    assert_eq!(s.selection_text(b, a), text);
    s.scroll_view_up(2);
    assert_eq!(s.selection_text(a, b), text);
}

#[test]
fn a_wide_space_bounds_a_word_with_both_its_halves() {
    let mut s = Screen::new(10, 1);
    print_all(&mut s, "ab\u{3000}\u{4e16}d");
    let row = s.abs_row(0);
    assert!(s.cell(0, 3).is_wide_spacer());
    assert_eq!(s.word_at(row, 0), ((row, 0), (row, 1)));
    assert_eq!(s.word_at(row, 3), ((row, 3), (row, 3)));
    assert_eq!(s.word_at(row, 5), ((row, 4), (row, 6)));
}

#[test]
fn the_nearest_prompt_is_the_nearest_by_its_line() {
    let mut s = Screen::new(4, 6);
    s.move_to(5, 0);
    s.osc_dispatch(b"133;A", true);
    s.move_to(1, 0);
    s.osc_dispatch(b"133;A", true);
    let (low, high) = (s.prompts()[0].row, s.prompts()[1].row);
    assert_eq!((low, high), (AbsRow(5), AbsRow(1)));
    for _ in 0..20 {
        s.next_line();
    }
    s.scroll_view_to_top();
    assert!(s.scroll_to_prompt(false));
    assert_eq!(s.abs_row(0), high);
    assert!(s.scroll_to_prompt(false));
    assert_eq!(s.abs_row(0), low);
    assert!(!s.scroll_to_prompt(false));
    assert!(s.scroll_to_prompt(true));
    assert_eq!(s.abs_row(0), high);
}

#[test]
fn a_scrolled_view_holds_until_its_lines_slide_out() {
    let mut s = Screen::with_scrollback(4, 2, 3);
    for c in "abcde".chars() {
        s.print(c);
        s.next_line();
    }
    s.scroll_view_up(1);
    let shown = s.view_cell(0, 0).rune;
    s.next_line();
    s.next_line();
    assert_eq!(s.view_cell(0, 0).rune, shown);
    assert_eq!(s.view_offset(), 3);
    s.next_line();
    assert_eq!(s.view_offset(), 3, "parked at the top");
    assert_ne!(s.view_cell(0, 0).rune, shown);
}

#[test]
fn a_probe_past_the_last_column_finds_nothing() {
    let mut s = Screen::new(30, 2);
    print_all(&mut s, "https://example.com/a");
    let mut probe = LinkProbe::default();
    assert!(s.link_at(0, 5, &mut probe).is_some());
    assert_eq!(probe.url(), "https://example.com/a");
    assert_eq!(s.link_at(0, 99, &mut probe), None);
    assert_eq!(probe.url(), "", "empty after a miss");
}

#[test]
fn a_title_is_read_leniently_and_quoted() {
    let mut s = Screen::new(4, 1);
    s.osc_dispatch(b"2;a\"\xff", true);
    assert_eq!(s.title(), "a\"\u{fffd}");
    assert!(s.snapshot().contains("title \"a\\\"\u{fffd}\""));
}

#[test]
fn a_styled_cell_is_quoted_in_the_snapshot() {
    let mut s = Screen::new(4, 1);
    s.sgr(&params(&[1]));
    s.print('\'');
    assert!(s.snapshot().contains("r0c0 '\\''"));
}

#[test]
fn a_hyperlink_of_malformed_text_opens_nothing() {
    let mut s = Screen::new(8, 1);
    s.osc_dispatch(b"8;;http://e.com/\xff", true);
    assert_eq!(s.pen.link, LinkId::none());
    s.osc_dispatch(b"8;;http://e.com/", true);
    assert!(s.pen.link.is_set());
    print_all(&mut s, "hi");
    s.osc_dispatch(b"8;;", true);
    assert_eq!(s.pen.link, LinkId::none());
    let mut probe = LinkProbe::new();
    assert_eq!(s.link_at(0, 1, &mut probe), Some(((0, 0), (0, 1))));
    assert_eq!(probe.url(), "http://e.com/");
}

#[test]
fn a_narrowed_line_is_whole_again_and_its_cells_are_followed() {
    let mut s = Screen::new(12, 3);
    print_all(&mut s, "ab \u{4e16}cd\u{301}efg");
    let before = s.row_string(0);
    let id = s.abs_row(0);
    let map = match s.resize(5, 3) {
        ResizeEffect::Reflowed(map) => map,
        _ => panic!("the width changed"),
    };
    let (row, col) = map.point(id, 6).expect("the cell is kept");
    assert_eq!(s.abs_cell(row, col).rune, 'd');
    assert_eq!(s.abs_marks(row, col), vec!['\u{301}']);
    assert_eq!(map.row(id), Some(id));
    s.resize(12, 3);
    assert_eq!(s.row_string(0), before);
}

#[test]
fn a_blank_hidden_in_a_seam_before_a_wide_character_is_lost() {
    // The one blank that cannot be told from wrap padding.
    let mut s = Screen::new(8, 3);
    print_all(&mut s, "abc \u{4e16}");
    s.resize(4, 3);
    s.resize(8, 3);
    assert_eq!(s.row_string(0).trim_end(), "abc\u{4e16}");
}

#[test]
fn a_row_the_rewrap_pushed_out_is_followed_nowhere() {
    let mut s = Screen::with_scrollback(4, 1, 1);
    let a = s.abs_row(0);
    print_all(&mut s, "abcd");
    s.next_line();
    let b = s.abs_row(0);
    print_all(&mut s, "ef");
    let map = match s.resize(2, 1) {
        ResizeEffect::Reflowed(map) => map,
        _ => panic!("the width changed"),
    };
    assert!(!s.row_exists(a));
    assert_eq!(map.point(a, 0), None, "\"ab\" has aged out");
    assert_eq!(map.row(a), None);
    let (row, col) = map.point(a, 3).expect("\"cd\" is still in history");
    assert_eq!(s.abs_cell(row, col).rune, 'd');
    let (row, col) = map.point(b, 1).expect("\"ef\" is on screen");
    assert_eq!(s.abs_cell(row, col).rune, 'f');
}

#[test]
fn a_row_that_no_longer_fits_below_the_cursor_is_past_the_end() {
    let mut s = Screen::new(4, 3);
    let top = s.abs_row(0);
    for text in ["abcd", "efgh", "ij"] {
        print_all(&mut s, text);
        s.next_line();
    }
    // The first line is now in history; two lines and an empty one are on screen.
    s.move_to(0, 0);
    let (first, second) = (s.abs_row(0), s.abs_row(1));
    let map = match s.resize(2, 2) {
        ResizeEffect::Reflowed(map) => map,
        _ => panic!("the width changed"),
    };
    let (row, col) = map.point(top, 3).expect("in history");
    assert_eq!(s.abs_cell(row, col).rune, 'd');
    let (row, col) = map.point(first, 3).expect("the cursor's line");
    assert_eq!(s.abs_cell(row, col).rune, 'h');
    let gone = map.point(second, 0).expect("neither absorbed nor aged out");
    assert_eq!(gone, (AbsRow(4), 0), "the id \"ij\" would have had");
    assert!(!s.row_exists(gone.0));
}

#[test]
fn a_marked_blank_before_a_wide_character_is_no_padding() {
    let mut s = Screen::new(4, 3);
    print_all(&mut s, "abc \u{301}\u{4e16}");
    assert_eq!(s.marks_at(0, 3), vec!['\u{301}']);
    assert!(s.cell(1, 0).is_wide_leader());
    s.resize(8, 3);
    assert_eq!(s.row_string(0).trim_end(), "abc \u{301}\u{4e16}");
    assert_eq!(s.marks_at(0, 3), vec!['\u{301}']);
    assert!(s.marks_at(0, 4).is_empty());
}

#[test]
fn a_rewrap_keeps_the_lines_and_the_cell_under_the_cursor() {
    let mut s = Screen::new(6, 6);
    print_all(&mut s, "abcdefgh");
    s.next_line();
    print_all(&mut s, "ij");
    s.move_to(1, 1);
    s.resize(4, 8);
    assert_eq!((s.cursor(), s.cell(1, 3).rune), ((1, 3), 'h'));
    let wraps: Vec<bool> = s.primary.lines.iter().map(|r| r.wrapped).collect();
    assert_eq!(wraps, vec![true, false, false, false, false, false, false, false]);
    assert!(s.primary.lines.iter().all(|r| r.cells.len() == 4));
    s.resize(0, 0);
    assert_eq!(s.dimensions(), (1, 1));
    assert_eq!(s.cell(0, 0).rune, 'h');
    s.resize(6, 6);
    assert_eq!(s.row_string(0), "abcdef");
    assert_eq!(s.row_string(1).trim_end(), "gh");
    assert_eq!(s.cursor(), (1, 1));
}

#[test]
fn a_resize_keeps_the_tab_stops_and_opens_the_region() {
    let mut s = Screen::new(20, 6);
    s.set_scroll_region(1, 3);
    s.csi_dispatch(&params(&[3]), b"", 0, b'g');
    s.move_to(0, 5);
    s.esc_dispatch(b"", b'H');
    let epoch = s.row_epoch();
    assert!(matches!(s.resize(20, 3), ResizeEffect::Stable));
    assert_eq!(s.row_epoch(), epoch);
    assert_eq!((s.primary.scroll_top, s.primary.scroll_bottom), (0, 2));
    assert!(matches!(s.resize(30, 3), ResizeEffect::Reflowed(_)));
    assert_ne!(s.row_epoch(), epoch);
    assert_eq!(s.dimensions(), (30, 3));
    s.move_to(0, 0);
    s.execute(9);
    assert_eq!(s.cursor().1, 5);
    s.execute(9);
    assert_eq!(s.cursor().1, 29, "the stops that were cleared stay cleared");
}

#[test]
fn an_alternate_screen_resize_follows_nothing() {
    let mut s = Screen::new(8, 3);
    s.set_mode(1049, true, true);
    s.osc_dispatch(b"133;A", true);
    assert_eq!(s.prompts().len(), 1);
    assert!(matches!(s.resize(4, 3), ResizeEffect::Reset));
    assert!(s.prompts().is_empty(), "the marks end with the epoch");
    s.set_mode(1049, true, false);
    assert!(matches!(s.resize(4, 5), ResizeEffect::Stable));
}

#[test]
fn erased_ground_is_in_no_link_and_keeps_the_background() {
    let mut s = Screen::new(4, 2);
    s.osc_dispatch(b"8;;http://e.com", true);
    s.sgr(&params(&[44]));
    print_all(&mut s, "abcd");
    let epoch = s.row_epoch();
    s.erase_display(2);
    assert_eq!(s.cell(0, 2).link, LinkId::none());
    assert_eq!(s.cell(0, 2).bg, Color::Ansi(4));
    assert_ne!(s.row_epoch(), epoch);
}

#[test]
fn a_thumb_is_found_where_it_was_dropped() {
    let mut s = Screen::new(4, 2);
    for _ in 0..9 {
        s.next_line();
    }
    let (total, page) = s.scroll_extent();
    assert_eq!((total, page), (10, 2));
    for p in 0..=(total - page) {
        s.scroll_view_to(p);
        assert_eq!(s.scroll_position(), p);
    }
    s.scroll_view_to(-5);
    assert_eq!(s.scroll_position(), 0);
    s.scroll_view_to(999);
    assert_eq!(s.scroll_position(), 8);
}

#[test]
fn a_widening_cluster_leaves_no_orphan_behind() {
    let mut s = Screen::new(6, 1);
    print_all(&mut s, "a\u{4e16}");
    s.set_mode(2027, true, true);
    s.move_to(0, 0);
    print_all(&mut s, "#\u{fe0f}");
    assert!(s.cell(0, 0).is_wide_leader());
    assert!(s.cell(0, 1).is_wide_spacer());
    assert!(!s.cell(0, 2).is_wide_spacer(), "the half that lost its leader");
}

#[test]
fn capabilities_are_answered_by_name() {
    let mut s = Screen::new(4, 1);
    s.xtgettcap(b"436f");
    assert_eq!(s.take_responses(), b"\x1bP1+r436f=323536\x1b\\");
    s.xtgettcap(b"5858");
    assert_eq!(s.take_responses(), b"\x1bP0+r5858\x1b\\");
    s.xtgettcap(b"4");
    assert_eq!(s.take_responses(), b"\x1bP0+r\x1b\\");
}
