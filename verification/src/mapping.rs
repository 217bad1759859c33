//! Windows onto mapped memory, and the ranges the device has to flush or
//! invalidate for them.

use vstd::prelude::*;
use std::ops::Range;
use crate::util::{align_down, align_up, aligned, aligned_down, lemma_align_down, lemma_align_up};

verus! {

/// Whether `inner` lies inside `outer`, bounds in order.
pub open spec fn contains_range(outer: Range<u64>, inner: Range<u64>) -> bool {
    outer.start <= inner.start && inner.start <= inner.end && inner.end <= outer.end
}

/// `range` widened to whole multiples of `atom`, its end cut off at `limit`.
pub open spec fn widened(range: Range<u64>, atom: u64, limit: u64) -> Range<u64> {
    let start = align_down(range.start as int, atom as int);
    let end = align_up(range.end as int, atom as int);
    Range {
        start: start as u64,
        end: if end <= limit {
            end as u64
        } else {
            limit
        },
    }
}

/// A widened range starts on a multiple of `atom`, covers the range it was
/// made from, stays below `limit`, and ends on a multiple of `atom` or at
/// `limit`.
pub proof fn lemma_widened(range: Range<u64>, atom: u64, limit: u64)
    requires
        atom > 0,
        range.start <= range.end <= limit,
    ensures
        widened(range, atom, limit).start % atom == 0,
        widened(range, atom, limit).start <= range.start,
        range.end <= widened(range, atom, limit).end <= limit,
        range.start - widened(range, atom, limit).start < atom,
        widened(range, atom, limit).end - range.end < atom,
        widened(range, atom, limit).end % atom == 0 || widened(range, atom, limit).end == limit,
{
    lemma_align_down(range.start as int, atom as int);
    lemma_align_up(range.end as int, atom as int);
}

/// Widens `range` to whole multiples of `atom` below `limit`.
pub fn widen(range: &Range<u64>, atom: u64, limit: u64) -> (r: Range<u64>)
    requires
        atom > 0,
    ensures
        r == widened(*range, atom, limit),
{
    proof {
        lemma_align_down(range.start as int, atom as int);
    }
    let start: u64 = aligned_down(range.start, atom);
    let end: u64 = match aligned(range.end, atom) {
        Some(end) => if end <= limit {
            end
        } else {
            limit
        },
        None => limit,
    };
    start..end
}

/// A live host mapping of part of one raw allocation.
#[derive(Debug)]
pub struct MappedRange {
    /// The raw allocation.
    pub raw: u64,
    /// Host address at which the device mapped byte 0 of the allocation.
    pub base: usize,
    /// The mapped bytes, as offsets into the allocation.
    pub range: Range<u64>,
    /// Size of the allocation.
    pub limit: u64,
    /// Whether host and device see each other's writes without help.
    pub coherent: bool,
}

impl MappedRange {
    pub open spec fn wf(self) -> bool {
        self.range.start <= self.range.end <= self.limit
    }

    /// What the device has to flush after the host wrote `written`, a part
    /// of this window: nothing for coherent memory, else `written` widened
    /// to the device's atom.
    pub open spec fn spec_flush(self, written: Range<u64>, atom: u64) -> Option<Range<u64>> {
        if self.coherent {
            None
        } else {
            Some(widened(written, atom, self.limit))
        }
    }

    /// The range to hand to the device's flush after a write to `written`.
    pub fn flush(&self, written: &Range<u64>, atom: u64) -> (r: Option<Range<u64>>)
        requires
            atom > 0,
        ensures
            r == self.spec_flush(*written, atom),
    {
        if self.coherent {
            None
        } else {
            Some(widen(written, atom, self.limit))
        }
    }

    /// The range to hand to the device's invalidate before a read of
    /// `read`: the same as for a flush.
    pub fn invalidate(&self, read: &Range<u64>, atom: u64) -> (r: Option<Range<u64>>)
        requires
            atom > 0,
        ensures
            r == self.spec_flush(*read, atom),
    {
        if self.coherent {
            None
        } else {
            Some(widen(read, atom, self.limit))
        }
    }

    /// Whether `part` lies inside this window.
    pub fn covers(&self, part: &Range<u64>) -> (b: bool)
        ensures
            b == contains_range(self.range, *part),
    {
        self.range.start <= part.start && part.start <= part.end && part.end <= self.range.end
    }
}

} // verus!
