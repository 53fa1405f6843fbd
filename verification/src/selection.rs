//! The selection data model: coordinates in the pane's stable row space,
//! ordered ranges with their mode-specific column geometry, and the per-pane
//! selection state (anchor, range, sequence number).

use vstd::prelude::*;

verus! {

/// A cell address in the pane's stable coordinate space: `x` is the column
/// (0-based), `y` the stable (scrollback-relative) row index.
#[derive(Clone, Copy, Debug, PartialEq, Eq, Structural)]
pub struct SelectionCoordinate {
    pub x: usize,
    pub y: isize,
}

/// Row-major order on coordinates: the row decides, the column breaks ties.
pub open spec fn coord_le(a: SelectionCoordinate, b: SelectionCoordinate) -> bool {
    a.y < b.y || (a.y == b.y && a.x <= b.x)
}

/// The gesture mode a selection is grown under.
#[derive(Clone, Copy, Debug, PartialEq, Eq, Structural)]
pub enum SelectionMode {
    Cell,
    Word,
    Line,
    SemanticZone,
}

/// An ordered pair of coordinates. While a drag runs backward the pair may be
/// stored out of order; `normalize` produces the row-major ordered form that
/// every read path works on.
#[derive(Clone, Copy, Debug, PartialEq, Eq, Structural)]
pub struct SelectionRange {
    pub start: SelectionCoordinate,
    pub end: SelectionCoordinate,
}

/// `x + 1`, capped at `usize::MAX`.
pub open spec fn col_after(x: usize) -> usize {
    if x == usize::MAX {
        x
    } else {
        (x + 1) as usize
    }
}

impl SelectionRange {
    /// The row-major ordered form of the range.
    pub open spec fn norm(self) -> SelectionRange {
        if coord_le(self.start, self.end) {
            self
        } else {
            SelectionRange { start: self.end, end: self.start }
        }
    }

    /// The inclusive row span of the normalized range, as a pair
    /// `(first row, last row)`.
    pub open spec fn spec_rows(self) -> (isize, isize) {
        (self.norm().start.y, self.norm().end.y)
    }

    /// The half-open column span `[lo, hi)` that the selection covers on
    /// `row`, with `usize::MAX` standing for "to the end of the line":
    /// interior rows of a multi-row selection cover the whole line, the
    /// first row covers from `start.x` to the end of the line, the last row
    /// covers from column 0 through `end.x`, and a single-row selection
    /// covers `[start.x, end.x]`.
    pub open spec fn spec_cols_for_row(self, row: isize) -> (usize, usize) {
        let n = self.norm();
        if row < n.start.y || row > n.end.y {
            (0usize, 0usize)
        } else if n.start.y == n.end.y {
            (n.start.x, col_after(n.end.x))
        } else if row == n.end.y {
            (0usize, col_after(n.end.x))
        } else if row == n.start.y {
            (n.start.x, usize::MAX)
        } else {
            (0usize, usize::MAX)
        }
    }

    /// The union of two ranges: the row-major least start to the row-major
    /// greatest end of their normalized forms.
    pub open spec fn spec_extend_with(self, other: SelectionRange) -> SelectionRange {
        let a = self.norm();
        let b = other.norm();
        SelectionRange {
            start: if coord_le(a.start, b.start) {
                a.start
            } else {
                b.start
            },
            end: if coord_le(a.end, b.end) {
                b.end
            } else {
                a.end
            },
        }
    }

    /// A zero-length range anchored at `coord`.
    pub fn start(coord: SelectionCoordinate) -> (r: SelectionRange)
        ensures
            r == (SelectionRange { start: coord, end: coord }),
    {
        SelectionRange { start: coord, end: coord }
    }

    /// The range from the existing `start` to `coord`; the result is not
    /// required to be well-ordered.
    pub fn extend(&self, coord: SelectionCoordinate) -> (r: SelectionRange)
        ensures
            r == (SelectionRange { start: self.start, end: coord }),
    {
        SelectionRange { start: self.start, end: coord }
    }

    /// Reorders the endpoints into row-major order.
    pub fn normalize(&self) -> (r: SelectionRange)
        ensures
            r == self.norm(),
            coord_le(r.start, r.end),
    {
        if self.start.y < self.end.y || (self.start.y == self.end.y && self.start.x <= self.end.x) {
            *self
        } else {
            SelectionRange { start: self.end, end: self.start }
        }
    }

    /// The union of `self` and `other`.
    pub fn extend_with(&self, other: SelectionRange) -> (r: SelectionRange)
        ensures
            r == self.spec_extend_with(other),
    {
        let a = self.normalize();
        let b = other.normalize();
        let new_start = if a.start.y < b.start.y || (a.start.y == b.start.y && a.start.x <= b.start.x) {
            a.start
        } else {
            b.start
        };
        let new_end = if a.end.y < b.end.y || (a.end.y == b.end.y && a.end.x <= b.end.x) {
            b.end
        } else {
            a.end
        };
        SelectionRange { start: new_start, end: new_end }
    }

    /// The inclusive row span `(first row, last row)` of the normalized range.
    pub fn rows(&self) -> (r: (isize, isize))
        ensures
            r == self.spec_rows(),
            r.0 <= r.1,
    {
        let n = self.normalize();
        (n.start.y, n.end.y)
    }

    /// The half-open column span the selection covers on `row`; see
    /// `spec_cols_for_row`.
    pub fn cols_for_row(&self, row: isize) -> (r: (usize, usize))
        ensures
            r == self.spec_cols_for_row(row),
    {
        let n = self.normalize();
        if row < n.start.y || row > n.end.y {
            (0, 0)
        } else if n.start.y == n.end.y {
            (n.start.x, if n.end.x == usize::MAX { n.end.x } else { n.end.x + 1 })
        } else if row == n.end.y {
            (0, if n.end.x == usize::MAX { n.end.x } else { n.end.x + 1 })
        } else if row == n.start.y {
            (n.start.x, usize::MAX)
        } else {
            (0, usize::MAX)
        }
    }
}

/// Law: normalization puts the endpoints in row-major order, and a second
/// normalization changes nothing.
pub proof fn lemma_normalize_idempotent(r: SelectionRange)
    ensures
        coord_le(r.norm().start, r.norm().end),
        r.norm().norm() == r.norm(),
{
}

/// Per-pane selection state: the anchor set once per drag gesture, the
/// current range (`None` exactly when nothing is selected), and the pane
/// sequence number the selection was last established or cleared against.
#[derive(Debug)]
pub struct Selection {
    pub origin: Option<SelectionCoordinate>,
    pub range: Option<SelectionRange>,
    pub seqno: usize,
}

impl Selection {
    /// An empty selection, valid against sequence number zero.
    pub fn new() -> (s: Selection)
        ensures
            s.origin is None,
            s.range is None,
            s.seqno == 0,
    {
        Selection { origin: None, range: None, seqno: 0 }
    }

    /// Starts a fresh gesture: anchors the selection at `start` and clears
    /// any previous range; a visible range only appears once the pointer
    /// moves.
    pub fn begin(&mut self, start: SelectionCoordinate)
        ensures
            final(self).origin == Some(start),
            final(self).range is None,
            final(self).seqno == old(self).seqno,
    {
        self.origin = Some(start);
        self.range = None;
    }
}

impl Default for Selection {
    /// The empty selection.
    fn default() -> (s: Selection)
        ensures
            s.origin is None,
            s.range is None,
            s.seqno == 0,
    {
        Selection::new()
    }
}

} // verus!
