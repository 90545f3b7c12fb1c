//! Source locations and spans.
//!
//! A `Loc` names a point in the source text by byte offset together with a
//! human-readable 1-based row and column; a span (`T`) is a half-open range
//! `[lo, hi)` of such points, locating one token or one error.

use vstd::prelude::*;

verus! {

/// A point in the source text.
///
/// `idx` is a byte offset into the source; `row` and `col` are 1-based.
/// The column advances once per character, so a multi-byte character moves
/// `idx` further than `col`.
#[derive(Copy, Clone, Debug, PartialEq, Eq, Structural)]
pub struct Loc {
    pub idx: usize,
    pub row: usize,
    pub col: usize,
}

/// A half-open range `[lo, hi)` over the source text: `hi` points just past
/// the last byte of the region.
#[derive(Copy, Clone, Debug, PartialEq, Eq, Structural)]
pub struct T {
    pub lo: Loc,
    pub hi: Loc,
}

impl Loc {
    /// The point at byte offset `idx`, one row below `self`, in column 1.
    pub fn next_row(&self, idx: usize) -> (r: Loc)
        requires
            self.row < usize::MAX,
        ensures
            r == (Loc { idx, row: (self.row + 1) as usize, col: 1 }),
    {
        Loc { idx, row: self.row + 1, col: 1 }
    }

    /// The point at byte offset `idx`, in the same row as `self`, one column
    /// to the right.
    pub fn next_col(&self, idx: usize) -> (r: Loc)
        requires
            self.col < usize::MAX,
        ensures
            r == (Loc { idx, row: self.row, col: (self.col + 1) as usize }),
    {
        Loc { idx, row: self.row, col: self.col + 1 }
    }
}

impl T {
    /// A span is well formed when it does not run backwards.
    pub open spec fn wf(self) -> bool {
        self.lo.idx <= self.hi.idx
    }
}

} // verus!
