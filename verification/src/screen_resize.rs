//! Resizing the whole screen: the primary rewraps when its width changes, the alternate
//! never does, and the marks follow the text where they can.
use vstd::prelude::*;
use crate::buffer::{least, side, BufferView, DEFAULT_SCROLLBACK, MAX_SIDE};
use crate::ids::{lemma_epoch_moves, AbsRow};
use crate::reflow::{
    lemma_reflowed_wf, reflow_remap, reflow_view, reflowed, RemapView, RowRemap,
};
use crate::buffer_resize::lemma_resized_buffer_wf;
use crate::screen::{Prompt, Screen, ScreenView};

verus! {

/// What a resize did to the rows, so that a holder of ids can carry its own.
pub enum ResizeEffect {
    /// The ids still name the lines they named.
    Stable,
    /// The lines were rewrapped; the map says where each went.
    Reflowed(RowRemap),
    /// The rows cannot be followed.
    Reset,
}

/// The row of the last prompt whose command has printed nothing yet.
pub open spec fn idle_prompt(prompts: Seq<Prompt>) -> Option<AbsRow>
    decreases prompts.len(),
{
    if prompts.len() == 0 {
        None
    } else if prompts.last().output is None {
        Some(prompts.last().row)
    } else {
        idle_prompt(prompts.drop_last())
    }
}

/// The prompts where their rows went; one whose row is gone goes too.
pub open spec fn prompts_moved(prompts: Seq<Prompt>, map: RemapView) -> Seq<Prompt>
    decreases prompts.len(),
{
    if prompts.len() == 0 {
        Seq::empty()
    } else {
        let rest = prompts_moved(prompts.drop_last(), map);
        let p = prompts.last();
        match map.moved_row(p.row) {
            Some(row) => rest.push(
                Prompt {
                    row,
                    output: match p.output {
                        Some(o) => map.moved_row(o),
                        None => None,
                    },
                    exit: p.exit,
                },
            ),
            None => rest,
        }
    }
}

impl ScreenView {
    /// The first row of the stream that a rewrap leaves alone: the prompt the user is sitting
    /// at, which the shell repaints itself, but nothing below the cursor.
    pub open spec fn frozen_from(self) -> int {
        let b = self.primary;
        let end = b.scrollback.len() + b.rows;
        match idle_prompt(self.prompts) {
            Some(row) => match b.index_of(row) {
                Some(i) => least(i, b.scrollback.len() + b.cursor.row),
                None => end,
            },
            None => end,
        }
    }

    /// The primary screen, the view and the marks at a new size.
    #[verifier::opaque]
    pub open spec fn primary_resized(self, cols: usize, rows: usize) -> ScreenView {
        if cols == self.primary.cols {
            ScreenView { primary: self.primary.resized(cols, rows), view_offset: 0, ..self }
        } else {
            let frozen = self.frozen_from();
            ScreenView {
                primary: reflowed(self.primary, cols, rows, frozen),
                view_offset: reflow_view(
                    self.primary,
                    cols,
                    rows,
                    self.offset(),
                    frozen,
                ) as usize,
                prompts: prompts_moved(
                    self.prompts,
                    reflow_remap(self.primary, cols, rows, frozen),
                ),
                ..self
            }
        }
    }

    /// The screen at a new size. The epoch ends where the ids in front no longer name what
    /// they named; on the alternate screen, where nothing tells where they went, the prompt
    /// marks end with it.
    pub open spec fn resized(self, cols: usize, rows: usize) -> ScreenView {
        let (cols, rows) = (side(cols), side(rows));
        let s = self.primary_resized(cols, rows);
        ScreenView {
            alt: self.alt.resized(cols, rows),
            epoch: if self.on_alt || cols != self.primary.cols {
                self.epoch.succ()
            } else {
                self.epoch
            },
            prompts: if self.on_alt {
                Seq::empty()
            } else {
                s.prompts
            },
            ..s
        }
    }
}

proof fn lemma_prompts_moved_len(prompts: Seq<Prompt>, map: RemapView)
    ensures
        prompts_moved(prompts, map).len() <= prompts.len(),
    decreases prompts.len(),
{
    if prompts.len() > 0 {
        lemma_prompts_moved_len(prompts.drop_last(), map);
    }
}

/// The prompts where their rows went.
fn move_prompts(prompts: &Vec<Prompt>, remap: &RowRemap) -> (r: Vec<Prompt>)
    requires
        remap@.wf(),
    ensures
        r@ == prompts_moved(prompts@, remap@),
{
    let mut out: Vec<Prompt> = Vec::new();
    let mut i: usize = 0;
    assert(prompts@.take(0) =~= Seq::empty());
    while i < prompts.len()
        invariant
            i <= prompts@.len(),
            remap@.wf(),
            out@ == prompts_moved(prompts@.take(i as int), remap@),
        decreases prompts.len() - i,
    {
        let p = prompts[i];
        assert(prompts@.take(i + 1).drop_last() =~= prompts@.take(i as int));
        if let Some(row) = remap.row(p.row) {
            let output: Option<AbsRow> = match p.output {
                Some(o) => remap.row(o),
                None => None,
            };
            out.push(Prompt { row, output, exit: p.exit });
        }
        i = i + 1;
    }
    assert(prompts@.take(i as int) =~= prompts@);
    out
}

impl Screen {
    fn idle_prompt_row(&self) -> (r: Option<AbsRow>)
        ensures
            r == idle_prompt(self@.prompts),
    {
        let ghost all = self.prompts@;
        let mut i: usize = self.prompts.len();
        assert(all.take(i as int) =~= all);
        while i > 0
            invariant
                i <= all.len(),
                all == self.prompts@,
                idle_prompt(all) == idle_prompt(all.take(i as int)),
            decreases i,
        {
            let p = self.prompts[i - 1];
            assert(all.take(i as int).drop_last() =~= all.take(i - 1));
            if p.output.is_none() {
                return Some(p.row);
            }
            i = i - 1;
        }
        None
    }

    fn first_frozen(&self) -> (r: usize)
        requires
            self.wf(),
        ensures
            r == self@.frozen_from(),
    {
        let b = &self.primary;
        let end: usize = b.scrollback.len() + b.rows;
        let cursor: usize = b.scrollback.len() + b.cursor.row;
        match self.idle_prompt_row() {
            Some(row) => match b.stream_index(row) {
                Some(i) => if i < cursor {
                    i
                } else {
                    cursor
                },
                None => end,
            },
            None => end,
        }
    }

    /// Rewrap the primary screen to a new width, carrying the view and the marks across.
    fn rewrap_primary(&mut self, cols: usize, rows: usize) -> (remap: RowRemap)
        requires
            old(self).wf(),
            1 <= cols <= MAX_SIDE,
            1 <= rows,
            rows + old(self)@.primary.scrollback_limit <= MAX_SIDE,
            cols != old(self)@.primary.cols,
        ensures
            final(self)@ == old(self)@.primary_resized(cols, rows),
            final(self).links == old(self).links,
            final(self).alt == old(self).alt,
            final(self).on_alt == old(self).on_alt,
            final(self).epoch == old(self).epoch,
            remap@ == reflow_remap(old(self)@.primary, cols, rows, old(self)@.frozen_from()),
            remap@.wf(),
    {
        reveal(ScreenView::primary_resized);
        let frozen = self.first_frozen();
        let view = self.view_offset();
        let (offset, remap) = self.primary.reflow(cols, rows, view, frozen);
        self.view_offset = offset;
        let moved = move_prompts(&self.prompts, &remap);
        self.prompts = moved;
        remap
    }

    /// Give the primary screen its new size, with the view and the marks.
    fn resize_primary(&mut self, cols: usize, rows: usize) -> (remap: Option<RowRemap>)
        requires
            old(self).wf(),
            cols <= MAX_SIDE,
            rows + old(self)@.primary.scrollback_limit < MAX_SIDE,
        ensures
            final(self)@ == old(self)@.primary_resized(side(cols), side(rows)),
            final(self).links == old(self).links,
            final(self).alt == old(self).alt,
            final(self).on_alt == old(self).on_alt,
            final(self).epoch == old(self).epoch,
            remap is None <==> side(cols) == old(self)@.primary.cols,
            remap matches Some(map) ==> map@ == reflow_remap(
                old(self)@.primary,
                side(cols),
                side(rows),
                old(self)@.frozen_from(),
            ) && map@.wf(),
    {
        let wide: usize = if cols < 1 {
            1
        } else {
            cols
        };
        let high: usize = if rows < 1 {
            1
        } else {
            rows
        };
        if wide == self.primary.cols {
            proof {
                reveal(ScreenView::primary_resized);
                lemma_side_twice(self@.primary, cols, rows);
            }
            self.primary.resize(cols, rows);
            self.view_offset = 0;
            None
        } else {
            Some(self.rewrap_primary(wide, high))
        }
    }

    /// Give both screens their new size.
    fn resize_both(&mut self, cols: usize, rows: usize) -> (remap: Option<RowRemap>)
        requires
            old(self).wf(),
            cols <= MAX_SIDE,
            rows + old(self)@.primary.scrollback_limit < MAX_SIDE,
        ensures
            final(self)@ == (ScreenView {
                alt: old(self)@.alt.resized(side(cols), side(rows)),
                ..old(self)@.primary_resized(side(cols), side(rows))
            }),
            final(self).links == old(self).links,
            final(self).on_alt == old(self).on_alt,
            final(self).epoch == old(self).epoch,
            remap is None <==> side(cols) == old(self)@.primary.cols,
            remap matches Some(map) ==> map@ == reflow_remap(
                old(self)@.primary,
                side(cols),
                side(rows),
                old(self)@.frozen_from(),
            ) && map@.wf(),
    {
        proof {
            lemma_side_twice(self@.alt, cols, rows);
        }
        let remap = self.resize_primary(cols, rows);
        self.alt.resize(cols, rows);
        remap
    }

    /// Resize both screens to `cols` by `rows`, at least one cell each way. A width change
    /// rewraps the primary screen and its scrollback; the alternate never rewraps. What is
    /// returned tells the caller how to carry ids of its own.
    pub fn resize(&mut self, cols: usize, rows: usize) -> (r: ResizeEffect)
        requires
            old(self).wf(),
            cols <= MAX_SIDE,
            rows + DEFAULT_SCROLLBACK < MAX_SIDE,
            rows + old(self)@.primary.scrollback_limit < MAX_SIDE,
        ensures
            final(self)@ == old(self)@.resized(cols, rows),
            final(self).wf(),
            r is Reset <==> old(self)@.on_alt,
            r is Stable <==> !old(self)@.on_alt && side(cols) == old(self)@.primary.cols,
            r is Stable <==> final(self)@.epoch == old(self)@.epoch,
            r matches ResizeEffect::Reflowed(map) ==> map@ == reflow_remap(
                old(self)@.primary,
                side(cols),
                side(rows),
                old(self)@.frozen_from(),
            ) && map@.wf(),
    {
        proof {
            lemma_screen_resized_wf(self@, cols, rows);
            lemma_epoch_moves(self@.epoch);
        }
        let remap = self.resize_both(cols, rows);
        if self.on_alt || remap.is_some() {
            self.epoch = self.epoch.next();
        }
        if self.on_alt {
            self.prompts.clear();
            return ResizeEffect::Reset;
        }
        match remap {
            Some(remap) => ResizeEffect::Reflowed(remap),
            None => ResizeEffect::Stable,
        }
    }
}

/// A side already at least one cell long stays as it is.
proof fn lemma_side_twice(b: BufferView, cols: usize, rows: usize)
    ensures
        b.resized(cols, rows) == b.resized(side(cols), side(rows)),
{
}

/// Every table and bound of the screen holds at the new size.
pub proof fn lemma_screen_resized_wf(s: ScreenView, cols: usize, rows: usize)
    requires
        s.wf(),
        cols <= MAX_SIDE,
        rows + DEFAULT_SCROLLBACK < MAX_SIDE,
        rows + s.primary.scrollback_limit < MAX_SIDE,
    ensures
        s.resized(cols, rows).wf(),
{
    reveal(ScreenView::primary_resized);
    let (wide, high) = (side(cols), side(rows));
    lemma_resized_buffer_wf(s.alt, cols, rows);
    lemma_side_twice(s.alt, cols, rows);
    if wide == s.primary.cols {
        lemma_resized_buffer_wf(s.primary, cols, rows);
        lemma_side_twice(s.primary, cols, rows);
    } else {
        lemma_reflowed_wf(s.primary, wide, high, s.frozen_from());
        lemma_prompts_moved_len(
            s.prompts,
            reflow_remap(s.primary, wide, high, s.frozen_from()),
        );
    }
}

} // verus!
