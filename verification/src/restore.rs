//! What a saved cursor outlives: whatever a program prints, moves, colours, links or
//! designates in between, a restore gives back what was saved.
use vstd::prelude::*;
use crate::cell::{LinkId, Pen};
use crate::fields::tail;
use crate::link::openable;
use crate::links::{
    distinct, lemma_compact_keeps_live_urls, lemma_intern_reads_back, lemma_interned_wf,
    lemma_kept_distinct, link_id, new_ids, renumbered, url_of, LINK_LIMIT,
};
use crate::screen::ScreenView;
use crate::width::columns;

verus! {

/// Something a program does between saving the cursor and restoring it.
pub enum Step {
    /// Text printed through the character set in use.
    Print(Seq<char>),
    /// A control byte.
    Control(u8),
    /// A sequence that moves the cursor: its parameters and final byte.
    Move(Seq<Seq<u16>>, u8),
    /// A sequence that rewrites cells: its parameters and final byte.
    Edit(Seq<Seq<u16>>, u8),
    /// A rendition.
    Rendition(Seq<Seq<u16>>),
    /// A hyperlink opened or closed.
    Link(Seq<u8>),
    /// A character set designated as the second set, or as the first.
    Designate(bool, u8),
    /// Origin mode set or reset.
    Origin(bool),
}

impl ScreenView {
    /// The screen after one step.
    pub open spec fn stepped(self, step: Step) -> ScreenView {
        match step {
            Step::Print(chars) => self.text_printed(chars),
            Step::Control(byte) => self.executed(byte),
            Step::Move(params, action) => self.csi_move(params, action),
            Step::Edit(params, action) => self.csi_edit(params, action),
            Step::Rendition(params) => ScreenView { pen: self.pen.rendered(params), ..self },
            Step::Link(pt) => self.hyperlink_set(pt),
            Step::Designate(second, byte) => self.esc_done(
                seq![
                    if second {
                        41u8
                    } else {
                        40u8
                    },
                ],
                byte,
            ),
            Step::Origin(enable) => self.mode_set(6, true, enable),
        }
    }

    /// The screen after some steps.
    pub open spec fn stepped_all(self, steps: Seq<Step>) -> ScreenView
        decreases steps.len(),
    {
        if steps.len() == 0 {
            self
        } else {
            self.stepped_all(steps.drop_last()).stepped(steps.last())
        }
    }

    /// Whether a step finds every link id taken and has the dead ones collected, which
    /// renumbers the others.
    pub open spec fn collects(self, step: Step) -> bool {
        step matches Step::Link(pt) && vstd::utf8::valid_utf8(tail(pt, 59)) && openable(
            vstd::utf8::decode_utf8(tail(pt, 59)),
        ) && link_id(self.links, vstd::utf8::decode_utf8(tail(pt, 59))) is None
    }

    /// Whether any of the steps does.
    pub open spec fn collects_in(self, steps: Seq<Step>) -> bool
        decreases steps.len(),
    {
        steps.len() > 0 && (self.collects_in(steps.drop_last()) || self.stepped_all(
            steps.drop_last(),
        ).collects(steps.last()))
    }
}

/// `t` has the size, the saved state and the links of `s`, on the same screen.
pub open spec fn saved_kept(s: ScreenView, t: ScreenView) -> bool {
    &&& t.on_alt == s.on_alt
    &&& t.active().cols == s.active().cols
    &&& t.active().rows == s.active().rows
    &&& t.active().saved == s.active().saved
    &&& t.links == s.links
}

proof fn lemma_wrap_keeps_saved(s: ScreenView)
    ensures
        saved_kept(s, s.wrapped_line()),
{
    reveal(ScreenView::wrapped_line);
}

proof fn lemma_width_keeps_saved(s: ScreenView, c: char, w: int)
    ensures
        saved_kept(s, s.printed_width(c, w)),
{
    if w != 0 {
        let t = s.unparked();
        if s.active().cursor.pending_wrap {
            lemma_wrap_keeps_saved(s);
        }
        let r = s.room_for(w);
        if w == 2 && t.active().cursor.col + 1 >= t.active().cols && t.modes.autowrap {
            lemma_wrap_keeps_saved(t);
        }
        assert(saved_kept(t, r));
        assert(saved_kept(r, r.placed(c, w)));
    }
}

proof fn lemma_scalar_keeps_saved(s: ScreenView, c: char)
    ensures
        saved_kept(s, s.printed(c)),
{
    reveal(ScreenView::printed);
    if !s.modes.grapheme_clustering {
        lemma_width_keeps_saved(s, c, columns(c) as int);
    } else if s.joins(c) {
    } else {
        lemma_width_keeps_saved(s.classed(c), c, columns(c) as int);
    }
}

proof fn lemma_text_keeps_saved(s: ScreenView, chars: Seq<char>)
    ensures
        saved_kept(s, s.printed_all(chars)),
    decreases chars.len(),
{
    if chars.len() > 0 {
        lemma_text_keeps_saved(s, chars.drop_last());
        lemma_scalar_keeps_saved(s.printed_all(chars.drop_last()), chars.last());
    }
}

proof fn lemma_repeat_keeps_saved(s: ScreenView, c: char, n: int)
    ensures
        saved_kept(s, s.printed_times(c, n)),
    decreases n,
{
    if n > 0 {
        lemma_repeat_keeps_saved(s, c, n - 1);
        lemma_scalar_keeps_saved(s.printed_times(c, n - 1), c);
    }
}

proof fn lemma_tabs_keep_saved(s: ScreenView, n: int)
    ensures
        saved_kept(s, s.tabbed(n)),
    decreases n,
{
    if n > 0 {
        lemma_tabs_keep_saved(s, n - 1);
    }
}

proof fn lemma_move_keeps_saved(s: ScreenView, params: Seq<Seq<u16>>, action: u8)
    ensures
        saved_kept(s, s.csi_move(params, action)),
{
    lemma_tabs_keep_saved(s, crate::dispatch::count_at(params, 0));
}

proof fn lemma_edit_keeps_saved(s: ScreenView, params: Seq<Seq<u16>>, action: u8)
    ensures
        saved_kept(s, s.csi_edit(params, action)),
{
    let n = crate::dispatch::count_at(params, 0);
    if let Some(c) = s.last_printed {
        lemma_repeat_keeps_saved(s, c, n);
    }
    let b = s.active();
    assert(saved_kept(s, s.scrolled_up(n)));
    assert(saved_kept(s, s.scrolled_down(n)));
    assert(saved_kept(s, s.lines_inserted(n)));
    assert(saved_kept(s, s.lines_deleted(n)));
}

proof fn lemma_control_keeps_saved(s: ScreenView, byte: u8)
    ensures
        saved_kept(s, s.executed(byte)),
{
    lemma_tabs_keep_saved(s, 1);
    assert(saved_kept(s, s.line_fed()));
}

/// Every step but opening a link keeps the saved state to the letter.
proof fn lemma_step_keeps_saved(s: ScreenView, step: Step)
    requires
        !(step is Link),
    ensures
        saved_kept(s, s.stepped(step)),
{
    match step {
        Step::Print(chars) => {
            lemma_text_keeps_saved(s, crate::dispatch::mapped_all(chars, s.charsets));
        },
        Step::Control(byte) => lemma_control_keeps_saved(s, byte),
        Step::Move(params, action) => lemma_move_keeps_saved(s, params, action),
        Step::Edit(params, action) => lemma_edit_keeps_saved(s, params, action),
        Step::Origin(_) => {
            reveal(ScreenView::origin_set);
        },
        _ => {},
    }
}

/// The cursor, the pen, the origin mode and the character sets of `s` are saved in `t`. The
/// link of the pen may have been renumbered since; it leads where it led.
pub open spec fn holds_saved(s: ScreenView, t: ScreenView) -> bool {
    &&& t.on_alt == s.on_alt
    &&& t.active().cols == s.active().cols
    &&& t.active().rows == s.active().rows
    &&& t.links.len() <= LINK_LIMIT
    &&& distinct(t.links)
    &&& t.active().saved matches Some(v) && v.cursor == s.active().cursor && v.origin
        == s.modes.origin_mode && v.charsets == s.charsets && v.pen == (Pen {
        link: v.pen.link,
        ..s.pen
    }) && (s.pen.link == LinkId(0) ==> v.pen.link == LinkId(0)) && (s.pen.link != LinkId(0)
        ==> url_of(t.links, v.pen.link) == url_of(s.links, s.pen.link))
}

proof fn lemma_interning_holds_saved(s: ScreenView, t: ScreenView, url: Seq<char>, pen: Pen)
    requires
        holds_saved(s, t),
        s.pen.link != LinkId(0) ==> url_of(s.links, s.pen.link) is Some,
    ensures
        holds_saved(
            s,
            ScreenView { links: crate::links::interned(t.links, url), pen, ..t },
        ),
{
    lemma_interned_wf(t.links, url);
    if link_id(t.links, url) is Some {
        lemma_intern_reads_back(t.links, url, t.active().saved->0.pen.link);
    }
}

proof fn lemma_collection_holds_saved(s: ScreenView, t: ScreenView)
    requires
        holds_saved(s, t),
        s.pen.link != LinkId(0) ==> url_of(s.links, s.pen.link) is Some,
    ensures
        holds_saved(s, t.links_collected()),
{
    let live = t.live_links();
    let id = t.active().saved->0.pen.link;
    lemma_kept_distinct(t.links, live, t.links.len() as int);
    assert(new_ids(t.links, live)[0] == LinkId(0));
    if s.pen.link != LinkId(0) {
        assert(t.active().cites(id));
        assert(t.cites(id));
        assert(live[id.0 as int] == t.cites(LinkId(id.0 as int as u16)));
        lemma_compact_keeps_live_urls(t.links, live, id);
    }
}

/// A link opened, or closed, keeps the saved state but for renumbering its link.
proof fn lemma_link_holds_saved(s: ScreenView, t: ScreenView, pt: Seq<u8>)
    requires
        holds_saved(s, t),
        s.pen.link != LinkId(0) ==> url_of(s.links, s.pen.link) is Some,
    ensures
        holds_saved(s, t.hyperlink_set(pt)),
        !t.collects(Step::Link(pt)) ==> t.hyperlink_set(pt).active().saved == t.active().saved,
{
    let uri = tail(pt, 59);
    if vstd::utf8::valid_utf8(uri) && openable(vstd::utf8::decode_utf8(uri)) {
        let url = vstd::utf8::decode_utf8(uri);
        let pen = t.linked(url).pen;
        if link_id(t.links, url) is Some {
            lemma_interning_holds_saved(s, t, url, pen);
        } else {
            lemma_collection_holds_saved(s, t);
            lemma_interning_holds_saved(s, t.links_collected(), url, pen);
        }
    }
}

proof fn lemma_kept_holds_saved(s: ScreenView, t: ScreenView, u: ScreenView)
    requires
        holds_saved(s, t),
        saved_kept(t, u),
    ensures
        holds_saved(s, u),
{
}

proof fn lemma_step_holds_saved(s: ScreenView, t: ScreenView, step: Step)
    requires
        holds_saved(s, t),
        s.pen.link != LinkId(0) ==> url_of(s.links, s.pen.link) is Some,
    ensures
        holds_saved(s, t.stepped(step)),
        !t.collects(step) ==> t.stepped(step).active().saved == t.active().saved,
{
    if let Step::Link(pt) = step {
        lemma_link_holds_saved(s, t, pt);
    } else {
        let u = t.stepped(step);
        assert(saved_kept(t, u)) by {
            lemma_step_keeps_saved(t, step);
        }
        lemma_kept_holds_saved(s, t, u);
    }
}

proof fn lemma_steps_hold_saved(s: ScreenView, steps: Seq<Step>)
    requires
        s.wf(),
        s.pen.link != LinkId(0) ==> url_of(s.links, s.pen.link) is Some,
    ensures
        holds_saved(s, s.cursor_saved().stepped_all(steps)),
        !s.cursor_saved().collects_in(steps) ==> s.cursor_saved().stepped_all(steps).active().saved
            == s.cursor_saved().active().saved,
    decreases steps.len(),
{
    if steps.len() > 0 {
        lemma_steps_hold_saved(s, steps.drop_last());
        lemma_step_holds_saved(
            s,
            s.cursor_saved().stepped_all(steps.drop_last()),
            steps.last(),
        );
    }
}

/// A restore gives back what was saved, whatever was printed, moved, coloured, linked or
/// designated in between: the cursor with its deferred wrap, the pen, the origin mode and the
/// character sets. It touches no cell, and restoring again changes nothing. The pen is back in
/// the link it was in, under the id that link has by then.
pub proof fn lemma_restore_gives_back(s: ScreenView, steps: Seq<Step>)
    requires
        s.wf(),
        s.pen.link != LinkId(0) ==> url_of(s.links, s.pen.link) is Some,
    ensures
        ({
            let t = s.cursor_saved().stepped_all(steps);
            let r = t.cursor_restored();
            &&& r.active().cursor == s.active().cursor
            &&& r.pen == (Pen { link: r.pen.link, ..s.pen })
            &&& s.pen.link == LinkId(0) ==> r.pen.link == LinkId(0)
            &&& s.pen.link != LinkId(0) ==> url_of(r.links, r.pen.link) == url_of(
                s.links,
                s.pen.link,
            )
            &&& !s.cursor_saved().collects_in(steps) ==> r.pen == s.pen
            &&& r.modes.origin_mode == s.modes.origin_mode
            &&& r.charsets == s.charsets
            &&& r.active().lines == t.active().lines
            &&& r.active().scrollback == t.active().scrollback
            &&& r.cursor_restored() == r
        }),
{
    lemma_steps_hold_saved(s, steps);
    let t = s.cursor_saved().stepped_all(steps);
    let r = t.cursor_restored();
    let b = r.active();
    assert(b.restored(b.saved->0.cursor) =~= b);
}

} // verus!
