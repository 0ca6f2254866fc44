//! The names lines go by: absolute row ids, and the regime they belong to.
use vstd::prelude::*;

verus! {

/// The index of a line in the unbounded stream of everything the child has printed:
/// history first (oldest at 0), then the live screen. Unlike a display row it does not
/// move when the screen scrolls: output pushes a row up out of the live screen and into
/// history, and the id rides along with the content.
///
/// Ids are only meaningful within one [`RowEpoch`].
#[derive(Clone, Copy, PartialEq, Eq, PartialOrd, Ord, Hash, Debug, Structural)]
pub struct AbsRow(pub u64);

impl AbsRow {
    /// The line after this one, `None` only at the end of the id space.
    pub fn next(self) -> (r: Option<AbsRow>)
        ensures
            r == (if self.0 < u64::MAX { Some(AbsRow((self.0 + 1) as u64)) } else { None }),
    {
        if self.0 < u64::MAX {
            Some(AbsRow(self.0 + 1))
        } else {
            None
        }
    }

    /// The line before this one, or `None` at the very start of the stream.
    pub fn prev(self) -> (r: Option<AbsRow>)
        ensures
            r == (if self.0 > 0 { Some(AbsRow((self.0 - 1) as u64)) } else { None }),
    {
        if self.0 > 0 {
            Some(AbsRow(self.0 - 1))
        } else {
            None
        }
    }
}

/// The identity regime [`AbsRow`] ids live in, moved on whenever the ids stop meaning
/// what they meant: a row torn out of the middle of the stream, or the content destroyed
/// wholesale. Ordinary output does not move it.
#[derive(Clone, Copy, PartialEq, Eq, Debug, Structural)]
pub struct RowEpoch(pub u64);

impl RowEpoch {
    /// The regime after this one. The counter wraps at the end of its range.
    pub open spec fn succ(self) -> RowEpoch {
        RowEpoch(if self.0 == u64::MAX { 0 } else { (self.0 + 1) as u64 })
    }

    /// The regime that follows this one.
    pub fn next(self) -> (r: RowEpoch)
        ensures
            r == self.succ(),
    {
        if self.0 == u64::MAX {
            RowEpoch(0)
        } else {
            RowEpoch(self.0 + 1)
        }
    }
}

impl Default for RowEpoch {
    fn default() -> (r: RowEpoch)
        ensures
            r == RowEpoch(0),
    {
        RowEpoch(0)
    }
}

/// Stepping to the next line and back is where one started, and the other way round.
pub proof fn lemma_next_prev_inverse(row: AbsRow)
    ensures
        row.0 < u64::MAX ==> AbsRow(((row.0 + 1) as u64 - 1) as u64) == row,
        row.0 > 0 ==> AbsRow(((row.0 - 1) as u64 + 1) as u64) == row,
{
}

/// Moving on always leaves the regime one was in.
pub proof fn lemma_epoch_moves(e: RowEpoch)
    ensures
        e.succ() != e,
{
}

} // verus!
