//! Capability selectors and selector ranges.
//!
//! A selector names a capability slot within one activity's table; it is
//! chosen by the activity and validated by the kernel.  A capability may
//! occupy a contiguous run of selectors, so table lookups work on ranges:
//! two ranges are considered the same slot when one's start falls inside
//! the other's span, and are otherwise ordered by their starts.

use vstd::prelude::*;

verus! {

/// A selector: an unsigned index into one activity's capability table.
pub type CapSel = u64;

/// A contiguous run of selectors, `start .. start + count`.
#[derive(Clone, Copy, Debug, PartialEq, Eq, Structural)]
pub struct SelRange {
    pub start: CapSel,
    pub count: CapSel,
}

impl SelRange {
    /// The range covering the single selector `sel`.
    pub fn new(sel: CapSel) -> (r: SelRange)
        ensures
            r.start == sel,
            r.count == 1,
    {
        SelRange { start: sel, count: 1 }
    }

    /// The range covering `count` selectors starting at `sel`.
    pub fn new_range(sel: CapSel, count: CapSel) -> (r: SelRange)
        ensures
            r.start == sel,
            r.count == count,
    {
        SelRange { start: sel, count }
    }

    /// Whether the range's span stays within the selector type.
    pub open spec fn spec_valid(self) -> bool {
        &&& self.count >= 1
        &&& self.start + self.count <= u64::MAX
    }

    /// Whether `sel` falls inside this range.
    pub open spec fn spec_contains(self, sel: CapSel) -> bool {
        self.start <= sel < self.start + self.count
    }

    /// Whether `sel` falls inside this range.
    pub fn contains(&self, sel: CapSel) -> (r: bool)
        requires
            self.spec_valid(),
        ensures
            r == self.spec_contains(sel),
    {
        self.start <= sel && sel - self.start < self.count
    }

    /// Whether the two ranges share at least one selector.
    pub open spec fn spec_overlaps(self, other: SelRange) -> bool {
        self.start < other.start + other.count && other.start < self.start + self.count
    }

    /// Whether the two ranges share at least one selector.
    pub fn overlaps(&self, other: &SelRange) -> (r: bool)
        requires
            self.spec_valid(),
            other.spec_valid(),
        ensures
            r == self.spec_overlaps(*other),
    {
        self.start < other.start + other.count && other.start < self.start + self.count
    }
}

/// Overlap is symmetric: a range collides with another exactly when the
/// other collides with it, so lookup by either key finds the same slot.
pub proof fn lemma_overlap_symmetric(a: SelRange, b: SelRange)
    ensures
        a.spec_overlaps(b) == b.spec_overlaps(a),
{
}

/// A range overlaps another exactly when one of them starts inside the
/// other's span; this is the equality used to organize the table.
pub proof fn lemma_overlap_means_start_inside(a: SelRange, b: SelRange)
    requires
        a.spec_valid(),
        b.spec_valid(),
    ensures
        a.spec_overlaps(b) == (b.spec_contains(a.start) || a.spec_contains(b.start)),
{
}

} // verus!
