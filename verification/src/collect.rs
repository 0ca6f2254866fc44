//! Reclaiming the ids of hyperlinks no cell cites any more: a mark and sweep over both
//! buffers, run only when the table of links is full.
use vstd::prelude::*;
use crate::buffer::{row_mut, rows_view, rows_wf, Buffer, BufferView};
use crate::cell::{Cell, LinkId, Pen, Saved};
use crate::links::{
    alive, distinct, kept_urls, lemma_compact_keeps_live_urls, lemma_kept_distinct,
    lemma_kept_prefix, new_ids, renumbered, url_of, LINK_LIMIT,
};
use crate::row::{pair_at, Row, RowView};
use crate::screen::{Screen, ScreenView};

verus! {

/// A cell under its new link id.
pub open spec fn relinked_cell(c: Cell, ids: Seq<LinkId>) -> Cell {
    Cell { link: renumbered(ids, c.link), ..c }
}

impl RowView {
    /// Whether a cell of the row is inside the link.
    pub open spec fn cites(self, id: LinkId) -> bool {
        exists|j: int| 0 <= j < self.cells.len() && (#[trigger] self.cells[j]).link == id
    }

    /// The row under the new link ids.
    pub open spec fn relinked(self, ids: Seq<LinkId>) -> RowView {
        RowView { cells: self.cells.map_values(|c: Cell| relinked_cell(c, ids)), ..self }
    }
}

/// Whether a cell of these rows is inside the link.
pub open spec fn rows_cite(rows: Seq<RowView>, id: LinkId) -> bool {
    exists|i: int| 0 <= i < rows.len() && (#[trigger] rows[i]).cites(id)
}

/// Rows under the new link ids.
pub open spec fn rows_relinked(rows: Seq<RowView>, ids: Seq<LinkId>) -> Seq<RowView> {
    rows.map_values(|r: RowView| r.relinked(ids))
}

impl BufferView {
    /// Whether anything in the buffer is inside the link: a cell on screen or in history, or
    /// the pen of the saved cursor.
    pub open spec fn cites(self, id: LinkId) -> bool {
        rows_cite(self.scrollback, id) || rows_cite(self.lines, id) || (
        self.saved matches Some(s) && s.pen.link == id)
    }

    /// The buffer under the new link ids.
    pub open spec fn relinked(self, ids: Seq<LinkId>) -> BufferView {
        BufferView {
            scrollback: rows_relinked(self.scrollback, ids),
            lines: rows_relinked(self.lines, ids),
            saved: match self.saved {
                Some(s) => Some(
                    Saved { pen: Pen { link: renumbered(ids, s.pen.link), ..s.pen }, ..s },
                ),
                None => None,
            },
            ..self
        }
    }
}

impl ScreenView {
    /// Whether anything on the screen is inside the link, the pen included: an anchor can be
    /// open with no text printed under it yet.
    pub open spec fn cites(self, id: LinkId) -> bool {
        self.primary.cites(id) || self.alt.cites(id) || self.pen.link == id
    }

    /// Which ids are cited.
    pub open spec fn live_links(self) -> Seq<bool> {
        Seq::new(self.links.len() + 1, |i: int| self.cites(LinkId(i as u16)))
    }

    /// The screen with the links nothing cites dropped and the others renumbered.
    pub open spec fn links_collected(self) -> ScreenView {
        let live = self.live_links();
        let ids = new_ids(self.links, live);
        ScreenView {
            primary: self.primary.relinked(ids),
            alt: self.alt.relinked(ids),
            pen: Pen { link: renumbered(ids, self.pen.link), ..self.pen },
            links: kept_urls(self.links, live, self.links.len() as int),
            ..self
        }
    }
}

/// New link ids leave wide characters and marks as they were.
proof fn lemma_relinked_rows_wf(rows: Seq<RowView>, cols: int, ids: Seq<LinkId>)
    requires
        rows_wf(rows, cols),
    ensures
        rows_wf(rows_relinked(rows, ids), cols),
{
    let out = rows_relinked(rows, ids);
    assert forall|i: int| 0 <= i < out.len() implies (#[trigger] out[i]).wf(cols) by {
        assert(rows[i].wf(cols));
        let (a, b) = (rows[i].cells, out[i].cells);
        assert forall|j: int| 0 <= j < b.len() implies #[trigger] pair_at(b, j) by {
            assert(pair_at(a, j));
            assert(b[j].attrs == a[j].attrs);
            if j > 0 {
                assert(b[j - 1].attrs == a[j - 1].attrs);
            }
            if j + 1 < b.len() {
                assert(b[j + 1].attrs == a[j + 1].attrs);
            }
        }
    }
}

fn mark(live: &mut Vec<bool>, id: LinkId)
    ensures
        final(live)@.len() == old(live)@.len(),
        forall|i: int|
            0 <= i < old(live)@.len() ==> #[trigger] final(live)@[i] == (old(live)@[i] || i == id.0),
{
    let slot: usize = id.0 as usize;
    if slot < live.len() {
        live.set(slot, true);
    }
}

fn mark_row(live: &mut Vec<bool>, row: &Row)
    requires
        old(live)@.len() <= 0x10000,
    ensures
        final(live)@.len() == old(live)@.len(),
        forall|i: int|
            0 <= i < old(live)@.len() ==> #[trigger] final(live)@[i] == (old(live)@[i]
                || row@.cites(LinkId(i as u16))),
{
    let ghost start = live@;
    let mut k: usize = 0;
    while k < row.cells.len()
        invariant
            k <= row.cells@.len(),
            live@.len() == start.len(),
            start.len() <= 0x10000,
            forall|i: int|
                0 <= i < start.len() ==> #[trigger] live@[i] == (start[i] || exists|j: int|
                    0 <= j < k && (#[trigger] row.cells@[j]).link == LinkId(i as u16)),
        decreases row.cells.len() - k,
    {
        let ghost before = live@;
        mark(live, row.cells[k].link);
        assert forall|i: int| 0 <= i < start.len() implies #[trigger] live@[i] == (start[i]
            || exists|j: int|
            0 <= j < k + 1 && (#[trigger] row.cells@[j]).link == LinkId(i as u16)) by {
            assert(live@[i] == (before[i] || i == row.cells@[k as int].link.0));
            if before[i] && !start[i] {
                let j = choose|j: int|
                    0 <= j < k && (#[trigger] row.cells@[j]).link == LinkId(i as u16);
                assert(row.cells@[j].link == LinkId(i as u16));
            }
            if i == row.cells@[k as int].link.0 {
                assert(row.cells@[k as int].link == LinkId(i as u16));
            }
        }
        k = k + 1;
    }
}

fn mark_buffer(live: &mut Vec<bool>, b: &Buffer)
    requires
        old(live)@.len() <= 0x10000,
    ensures
        final(live)@.len() == old(live)@.len(),
        forall|i: int|
            0 <= i < old(live)@.len() ==> #[trigger] final(live)@[i] == (old(live)@[i]
                || b@.cites(LinkId(i as u16))),
{
    let ghost start = live@;
    let mut k: usize = 0;
    while k < b.scrollback.len()
        invariant
            k <= b.scrollback@.len(),
            live@.len() == start.len(),
            start.len() <= 0x10000,
            forall|i: int|
                0 <= i < start.len() ==> #[trigger] live@[i] == (start[i] || rows_cite(
                    b@.scrollback.take(k as int),
                    LinkId(i as u16),
                )),
        decreases b.scrollback.len() - k,
    {
        let ghost before = live@;
        mark_row(live, &b.scrollback[k]);
        assert forall|i: int| 0 <= i < start.len() implies #[trigger] live@[i] == (start[i]
            || rows_cite(b@.scrollback.take(k + 1), LinkId(i as u16))) by {
            assert(live@[i] == (before[i] || b@.scrollback[k as int].cites(LinkId(i as u16))));
            lemma_rows_cite_next(b@.scrollback, k as int, LinkId(i as u16));
        }
        k = k + 1;
    }
    assert(b@.scrollback.take(k as int) =~= b@.scrollback);
    let ghost middle = live@;
    let mut k: usize = 0;
    while k < b.lines.len()
        invariant
            k <= b.lines@.len(),
            live@.len() == middle.len(),
            middle.len() <= 0x10000,
            forall|i: int|
                0 <= i < middle.len() ==> #[trigger] live@[i] == (middle[i] || rows_cite(
                    b@.lines.take(k as int),
                    LinkId(i as u16),
                )),
        decreases b.lines.len() - k,
    {
        let ghost before = live@;
        mark_row(live, &b.lines[k]);
        assert forall|i: int| 0 <= i < middle.len() implies #[trigger] live@[i] == (middle[i]
            || rows_cite(b@.lines.take(k + 1), LinkId(i as u16))) by {
            assert(live@[i] == (before[i] || b@.lines[k as int].cites(LinkId(i as u16))));
            lemma_rows_cite_next(b@.lines, k as int, LinkId(i as u16));
        }
        k = k + 1;
    }
    assert(b@.lines.take(k as int) =~= b@.lines);
    let ghost rows = live@;
    if let Some(s) = b.saved {
        mark(live, s.pen.link);
        assert forall|i: int| 0 <= i < start.len() implies #[trigger] live@[i] == (rows[i] || (
        b@.saved matches Some(s) && s.pen.link == LinkId(i as u16))) by {
            assert(live@[i] == (rows[i] || i == s.pen.link.0));
        }
    }
    assert forall|i: int| 0 <= i < start.len() implies #[trigger] live@[i] == (start[i]
        || b@.cites(LinkId(i as u16))) by {
        assert(rows[i] == (middle[i] || rows_cite(b@.lines, LinkId(i as u16))));
        assert(middle[i] == (start[i] || rows_cite(b@.scrollback, LinkId(i as u16))));
    }
}

proof fn lemma_rows_cite_next(rows: Seq<RowView>, k: int, id: LinkId)
    requires
        0 <= k < rows.len(),
    ensures
        rows_cite(rows.take(k + 1), id) == (rows_cite(rows.take(k), id) || rows[k].cites(id)),
{
    let (a, b) = (rows.take(k), rows.take(k + 1));
    if rows_cite(b, id) {
        let i = choose|i: int| 0 <= i < b.len() && (#[trigger] b[i]).cites(id);
        if i < k {
            assert(a[i].cites(id));
        }
    }
    if rows_cite(a, id) {
        let i = choose|i: int| 0 <= i < a.len() && (#[trigger] a[i]).cites(id);
        assert(b[i].cites(id));
    }
    if rows[k].cites(id) {
        assert(b[k].cites(id));
    }
}

fn new_id(ids: &Vec<LinkId>, id: LinkId) -> (r: LinkId)
    ensures
        r == renumbered(ids@, id),
{
    let slot: usize = id.0 as usize;
    if slot < ids.len() {
        ids[slot]
    } else {
        LinkId::none()
    }
}

impl Row {
    fn relink(&mut self, ids: &Vec<LinkId>)
        ensures
            final(self)@ == old(self)@.relinked(ids@),
    {
        let ghost before = self@;
        let mut k: usize = 0;
        while k < self.cells.len()
            invariant
                k <= self.cells@.len(),
                self.cells@.len() == before.cells.len(),
                self@ == (RowView { cells: self.cells@, ..before }),
                forall|j: int|
                    0 <= j < before.cells.len() ==> #[trigger] self.cells@[j] == (if j < k {
                        relinked_cell(before.cells[j], ids@)
                    } else {
                        before.cells[j]
                    }),
            decreases self.cells.len() - k,
        {
            let cell = self.cells[k];
            self.cells.set(k, Cell { link: new_id(ids, cell.link), ..cell });
            k = k + 1;
        }
        assert(self.cells@ =~= before.relinked(ids@).cells);
    }
}

impl Buffer {
    fn relink(&mut self, ids: &Vec<LinkId>)
        requires
            old(self)@.wf(),
        ensures
            final(self)@ == old(self)@.relinked(ids@),
            final(self)@.wf(),
    {
        let ghost before = self@;
        let mut i: usize = 0;
        while i < self.lines.len()
            invariant
                i <= self.lines@.len(),
                self@ == (BufferView { lines: rows_view(self.lines@), ..before }),
                self.lines@.len() == before.lines.len(),
                forall|j: int|
                    0 <= j < before.lines.len() ==> (#[trigger] self.lines@[j])@ == (if j < i {
                        before.lines[j].relinked(ids@)
                    } else {
                        before.lines[j]
                    }),
            decreases self.lines.len() - i,
        {
            row_mut(&mut self.lines, i).relink(ids);
            i = i + 1;
        }
        let ghost lines = rows_relinked(before.lines, ids@);
        assert(rows_view(self.lines@) =~= lines);
        let mut k: usize = 0;
        while k < self.scrollback.len()
            invariant
                k <= self.scrollback@.len(),
                rows_view(self.lines@) == lines,
                self@ == (BufferView { lines, scrollback: rows_view(self.scrollback@), ..before }),
                self.scrollback@.len() == before.scrollback.len(),
                forall|j: int|
                    0 <= j < before.scrollback.len() ==> (#[trigger] self.scrollback@[j])@ == (if j
                        < k {
                        before.scrollback[j].relinked(ids@)
                    } else {
                        before.scrollback[j]
                    }),
            decreases self.scrollback.len() - k,
        {
            row_mut(&mut self.scrollback, k).relink(ids);
            k = k + 1;
        }
        assert(rows_view(self.scrollback@) =~= rows_relinked(before.scrollback, ids@));
        if let Some(s) = self.saved {
            let pen = Pen { link: new_id(ids, s.pen.link), ..s.pen };
            self.saved = Some(Saved { pen, ..s });
        }
        assert(self@ =~= before.relinked(ids@));
        proof {
            lemma_relinked_rows_wf(before.lines, before.cols as int, ids@);
            lemma_relinked_rows_wf(before.scrollback, before.cols as int, ids@);
        }
    }
}

impl Screen {
    /// Reclaim the ids of hyperlinks no cell carries any more, so that a session that prints
    /// an unbounded stream of distinct links goes on linking.
    pub fn collect_links(&mut self)
        requires
            old(self).wf(),
        ensures
            final(self)@ == old(self)@.links_collected(),
            final(self).wf(),
    {
        let ghost start = self@;
        // `live[i]` speaks for id `i`; slot 0 is no link at all.
        let mut live: Vec<bool> = Vec::new();
        let n: usize = self.links.urls.len() + 1;
        assert(start.links.len() == self.links.urls@.len());
        while live.len() < n
            invariant
                live@.len() <= n,
                forall|i: int| 0 <= i < live@.len() ==> !#[trigger] live@[i],
            decreases n - live.len(),
        {
            live.push(false);
        }
        mark_buffer(&mut live, &self.primary);
        mark_buffer(&mut live, &self.alt);
        mark(&mut live, self.pen.link);
        assert(live@ =~= start.live_links());
        let ids = self.links.compact(&live);
        proof {
            lemma_kept_distinct(start.links, start.live_links(), start.links.len() as int);
        }
        self.primary.relink(&ids);
        self.alt.relink(&ids);
        self.pen.link = new_id(&ids, self.pen.link);
    }
}

// ---- what a collection comes to ------------------------------------------------------------------

/// `b` of the links `new` leads where `a` of the links `old` led: nowhere, or to one URL.
pub open spec fn leads_alike(
    a: LinkId,
    old_links: Seq<Seq<char>>,
    b: LinkId,
    new_links: Seq<Seq<char>>,
) -> bool {
    &&& url_of(new_links, b) == url_of(old_links, a)
    &&& a == LinkId(0) <==> b == LinkId(0)
}

/// The rows `b` are the rows `a` but for the link ids, and every cell leads where it led.
pub open spec fn rows_lead_alike(
    a: Seq<RowView>,
    old_links: Seq<Seq<char>>,
    b: Seq<RowView>,
    new_links: Seq<Seq<char>>,
) -> bool {
    &&& b.len() == a.len()
    &&& forall|i: int|
        0 <= i < a.len() ==> (#[trigger] b[i]) == (RowView { cells: b[i].cells, ..a[i] })
            && b[i].cells.len() == a[i].cells.len()
    &&& forall|i: int, j: int|
        0 <= i < a.len() && 0 <= j < a[i].cells.len() ==> (#[trigger] b[i].cells[j]) == (Cell {
            link: b[i].cells[j].link,
            ..a[i].cells[j]
        }) && leads_alike(a[i].cells[j].link, old_links, b[i].cells[j].link, new_links)
}

/// The buffer `b` is the buffer `a` but for the link ids, and everything in it that is inside
/// a link leads where it led.
pub open spec fn leads_on(
    a: BufferView,
    old_links: Seq<Seq<char>>,
    b: BufferView,
    new_links: Seq<Seq<char>>,
) -> bool {
    &&& b == (BufferView { lines: b.lines, scrollback: b.scrollback, saved: b.saved, ..a })
    &&& rows_lead_alike(a.lines, old_links, b.lines, new_links)
    &&& rows_lead_alike(a.scrollback, old_links, b.scrollback, new_links)
    &&& match a.saved {
        Some(v) => b.saved matches Some(w) && w == (Saved {
            pen: Pen { link: w.pen.link, ..v.pen },
            ..v
        }) && leads_alike(v.pen.link, old_links, w.pen.link, new_links),
        None => b.saved is None,
    }
}

/// Every id that something is inside of is no link, or in the table.
pub open spec fn links_held(s: ScreenView) -> bool {
    forall|id: LinkId| #[trigger] s.cites(id) ==> id.0 <= s.links.len()
}

/// An id that is cited, or none, leads where it led once it is renumbered.
proof fn lemma_renumbered_leads(s: ScreenView, id: LinkId)
    requires
        s.wf(),
        id.0 <= s.links.len(),
        s.cites(id),
    ensures
        leads_alike(
            id,
            s.links,
            renumbered(new_ids(s.links, s.live_links()), id),
            s.links_collected().links,
        ),
{
    if id.0 > 0 {
        assert(s.live_links()[id.0 as int] == s.cites(LinkId(id.0 as int as u16)));
        lemma_compact_keeps_live_urls(s.links, s.live_links(), id);
    }
}

proof fn lemma_rows_lead(s: ScreenView, rows: Seq<RowView>)
    requires
        s.wf(),
        links_held(s),
        forall|id: LinkId| rows_cite(rows, id) ==> #[trigger] s.cites(id),
    ensures
        rows_lead_alike(
            rows,
            s.links,
            rows_relinked(rows, new_ids(s.links, s.live_links())),
            s.links_collected().links,
        ),
{
    let ids = new_ids(s.links, s.live_links());
    let out = rows_relinked(rows, ids);
    assert forall|i: int, j: int| 0 <= i < rows.len() && 0 <= j < rows[i].cells.len() implies (
    #[trigger] out[i].cells[j]) == (Cell { link: out[i].cells[j].link, ..rows[i].cells[j] })
        && leads_alike(
        rows[i].cells[j].link,
        s.links,
        out[i].cells[j].link,
        s.links_collected().links,
    ) by {
        let id = rows[i].cells[j].link;
        assert(rows[i].cites(id));
        assert(rows_cite(rows, id));
        assert(s.cites(id));
        lemma_renumbered_leads(s, id);
    }
}

proof fn lemma_buffer_leads(s: ScreenView, b: BufferView)
    requires
        s.wf(),
        links_held(s),
        b == s.primary || b == s.alt,
    ensures
        leads_on(
            b,
            s.links,
            b.relinked(new_ids(s.links, s.live_links())),
            s.links_collected().links,
        ),
{
    assert forall|id: LinkId| rows_cite(b.lines, id) implies #[trigger] s.cites(id) by {
        assert(b.cites(id));
    }
    assert forall|id: LinkId| rows_cite(b.scrollback, id) implies #[trigger] s.cites(id) by {
        assert(b.cites(id));
    }
    lemma_rows_lead(s, b.lines);
    lemma_rows_lead(s, b.scrollback);
    if let Some(v) = b.saved {
        assert(b.cites(v.pen.link));
        assert(s.cites(v.pen.link));
        lemma_renumbered_leads(s, v.pen.link);
    }
}

/// Every id a collection hands out is the new id of one that was cited.
proof fn lemma_kept_comes_from(urls: Seq<Seq<char>>, live: Seq<bool>, k: int, n: int) -> (id: int)
    requires
        0 <= k <= urls.len(),
        1 <= n <= kept_urls(urls, live, k).len(),
    ensures
        1 <= id <= k,
        alive(live, id - 1),
        kept_urls(urls, live, id).len() == n,
    decreases k,
{
    if kept_urls(urls, live, k).len() == n && alive(live, k - 1) {
        k
    } else {
        lemma_kept_comes_from(urls, live, k - 1, n)
    }
}

proof fn lemma_rows_cite_relinked(rows: Seq<RowView>, ids: Seq<LinkId>, id: LinkId)
    requires
        rows_cite(rows, id),
    ensures
        rows_cite(rows_relinked(rows, ids), renumbered(ids, id)),
{
    let out = rows_relinked(rows, ids);
    let i = choose|i: int| 0 <= i < rows.len() && (#[trigger] rows[i]).cites(id);
    let j = choose|j: int| 0 <= j < rows[i].cells.len() && (#[trigger] rows[i].cells[j]).link == id;
    assert(out[i].cells[j].link == renumbered(ids, id));
    assert(out[i].cites(renumbered(ids, id)));
}

proof fn lemma_buffer_cites_relinked(b: BufferView, ids: Seq<LinkId>, id: LinkId)
    requires
        b.cites(id),
    ensures
        b.relinked(ids).cites(renumbered(ids, id)),
{
    if rows_cite(b.lines, id) {
        lemma_rows_cite_relinked(b.lines, ids, id);
    } else if rows_cite(b.scrollback, id) {
        lemma_rows_cite_relinked(b.scrollback, ids, id);
    }
}

/// The new ids are no more than the URLs kept.
proof fn lemma_new_id_bound(urls: Seq<Seq<char>>, live: Seq<bool>, id: LinkId)
    requires
        distinct(urls),
        urls.len() <= LINK_LIMIT,
    ensures
        renumbered(new_ids(urls, live), id).0 <= kept_urls(urls, live, urls.len() as int).len(),
{
    if 0 < id.0 <= urls.len() {
        lemma_kept_distinct(urls, live, id.0 as int);
        lemma_kept_prefix(urls, live, id.0 as int, urls.len() as int);
    }
}

proof fn lemma_relinked_bound(b: BufferView, urls: Seq<Seq<char>>, live: Seq<bool>, id: LinkId)
    requires
        distinct(urls),
        urls.len() <= LINK_LIMIT,
        b.relinked(new_ids(urls, live)).cites(id),
    ensures
        id.0 <= kept_urls(urls, live, urls.len() as int).len(),
{
    let ids = new_ids(urls, live);
    let c = b.relinked(ids);
    let rows = if rows_cite(c.lines, id) {
        b.lines
    } else {
        b.scrollback
    };
    let out = rows_relinked(rows, ids);
    if rows_cite(out, id) {
        let i = choose|i: int| 0 <= i < out.len() && (#[trigger] out[i]).cites(id);
        let j = choose|j: int|
            0 <= j < out[i].cells.len() && (#[trigger] out[i].cells[j]).link == id;
        assert(id == renumbered(ids, rows[i].cells[j].link));
        lemma_new_id_bound(urls, live, rows[i].cells[j].link);
    } else {
        lemma_new_id_bound(urls, live, b.saved->0.pen.link);
    }
}

/// What a collection leaves: every URL still in the table is one that something is inside of,
/// and the ids in use are exactly the ids of the table. Nothing but link ids has changed, and
/// every cell and every pen leads where it led, or nowhere where it led nowhere.
pub proof fn lemma_collection_keeps_links(s: ScreenView)
    requires
        s.wf(),
        links_held(s),
    ensures
        ({
            let t = s.links_collected();
            &&& leads_on(s.primary, s.links, t.primary, t.links)
            &&& leads_on(s.alt, s.links, t.alt, t.links)
            &&& leads_alike(s.pen.link, s.links, t.pen.link, t.links)
            &&& t == (ScreenView {
                primary: t.primary,
                alt: t.alt,
                pen: Pen { link: t.pen.link, ..s.pen },
                links: t.links,
                ..s
            })
            &&& forall|id: LinkId| 1 <= id.0 <= t.links.len() ==> #[trigger] t.cites(id)
            &&& links_held(t)
        }),
{
    let t = s.links_collected();
    let live = s.live_links();
    let ids = new_ids(s.links, live);
    lemma_buffer_leads(s, s.primary);
    lemma_buffer_leads(s, s.alt);
    assert(s.cites(s.pen.link));
    lemma_renumbered_leads(s, s.pen.link);
    lemma_kept_distinct(s.links, live, s.links.len() as int);
    assert forall|id: LinkId| 1 <= id.0 <= t.links.len() implies #[trigger] t.cites(id) by {
        let k = lemma_kept_comes_from(s.links, live, s.links.len() as int, id.0 as int);
        let was = LinkId(k as u16);
        assert(live[k] == s.cites(was));
        assert(renumbered(ids, was) == id);
        if s.primary.cites(was) {
            lemma_buffer_cites_relinked(s.primary, ids, was);
        } else if s.alt.cites(was) {
            lemma_buffer_cites_relinked(s.alt, ids, was);
        }
    }
    assert forall|id: LinkId| #[trigger] t.cites(id) implies id.0 <= t.links.len() by {
        if t.primary.cites(id) {
            lemma_relinked_bound(s.primary, s.links, live, id);
        } else if t.alt.cites(id) {
            lemma_relinked_bound(s.alt, s.links, live, id);
        } else {
            lemma_new_id_bound(s.links, live, s.pen.link);
        }
    }
}

} // verus!
