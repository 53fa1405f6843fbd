//! The pane collaborator, modelled as plain data: the character grid with
//! its soft-wrap flags and per-row change stamps, the pane dimensions, the
//! word-boundary and semantic-zone classification the pane owns, and the
//! structure queries the selection core asks of it (logical-line bounds,
//! word / line / zone ranges around a coordinate).

use vstd::prelude::*;

use crate::selection::{coord_le, SelectionCoordinate, SelectionRange};

verus! {

/// One character cell of the grid. `wrapped` marks a soft-wrap continuation:
/// the row ends here only because it ran out of columns, and the next
/// physical row continues the same logical line.
#[derive(Clone, Copy, Debug)]
pub struct Cell {
    pub ch: char,
    pub wrapped: bool,
}

/// One physical row of the grid, stamped with the sequence number of its
/// last change.
#[derive(Debug)]
pub struct Line {
    pub cells: Vec<Cell>,
    pub seqno: usize,
}

/// Pane dimensions. `scrollback_top` is the stable index of the first
/// retained row, `physical_top` the stable index of the top of the live
/// (non-scrollback) screen.
#[derive(Clone, Copy, Debug)]
pub struct PaneDimensions {
    pub cols: usize,
    pub viewport_rows: usize,
    pub scrollback_rows: usize,
    pub physical_top: isize,
    pub scrollback_top: isize,
}

/// Which transient overlay a pane is running, when it is one.
#[derive(Clone, Copy, Debug, PartialEq, Eq, Structural)]
pub enum OverlayKind {
    Search,
    Copy,
    QuickSelect,
}

/// Whether a pane is ordinary content or a selection-owning overlay.
/// Overlays mark rows dirty for highlighting while also driving the
/// selection themselves, so dirty-row invalidation must leave them alone.
#[derive(Clone, Copy, Debug, PartialEq, Eq, Structural)]
pub enum PaneKind {
    Content,
    Overlay(OverlayKind),
}

/// A contiguous region the content layer classifies as one semantic unit
/// (for example one shell command with its output), as a row-major
/// inclusive span of coordinates.
#[derive(Clone, Copy, Debug)]
pub struct SemanticZone {
    pub start: SelectionCoordinate,
    pub end: SelectionCoordinate,
}

/// Whether `c` lies inside the zone's row-major inclusive span.
pub open spec fn zone_contains(z: SemanticZone, c: SelectionCoordinate) -> bool {
    coord_le(z.start, c) && coord_le(c, z.end)
}

/// The first zone of `zones` that contains `c`, if any.
pub open spec fn first_zone(zones: Seq<SemanticZone>, c: SelectionCoordinate) -> Option<
    SemanticZone,
>
    decreases zones.len(),
{
    if zones.len() == 0 {
        None
    } else if zone_contains(zones[0], c) {
        Some(zones[0])
    } else {
        first_zone(zones.drop_first(), c)
    }
}

/// The first position `(row, column)` of the word-character run holding
/// `(y, x)`, read through the logical line: stepping left from the start of
/// a row continues at the last cell of a row that soft-wraps into it.
pub open spec fn word_run_first(pane: Pane, y: int, x: int) -> (int, int)
    decreases y - pane.base(), x,
{
    if 0 < x <= pane.cells_at(y).len() && !pane.word_boundary@.contains(
        pane.cells_at(y)[x - 1].ch,
    ) {
        word_run_first(pane, y, x - 1)
    } else if x == 0 && pane.joins_next(y - 1) && !pane.word_boundary@.contains(
        pane.cells_at(y - 1).last().ch,
    ) {
        word_run_first(pane, y - 1, pane.cells_at(y - 1).len() - 1)
    } else {
        (y, x)
    }
}

/// The last position `(row, column)` of the word-character run holding
/// `(y, x)`: stepping right past the wrapped last cell of a row continues
/// at the first cell of the next row of the same logical line.
pub open spec fn word_run_last(pane: Pane, y: int, x: int) -> (int, int)
    decreases pane.base() + pane.lines@.len() - y, pane.cells_at(y).len() - x,
{
    if 0 <= x && x + 1 < pane.cells_at(y).len() && !pane.word_boundary@.contains(
        pane.cells_at(y)[x + 1].ch,
    ) {
        word_run_last(pane, y, x + 1)
    } else if x + 1 == pane.cells_at(y).len() && pane.joins_next(y) && pane.cells_at(
        y + 1,
    ).len() > 0 && !pane.word_boundary@.contains(pane.cells_at(y + 1)[0].ch) {
        word_run_last(pane, y + 1, 0)
    } else {
        (y, x)
    }
}

/// A snapshot of everything the selection core reads from a pane: the grid,
/// the dimensions, the current change-sequence number, the pane kind, and
/// the classification data (semantic zones and word-boundary characters).
#[derive(Debug)]
pub struct Pane {
    pub dims: PaneDimensions,
    pub lines: Vec<Line>,
    pub seqno: usize,
    pub kind: PaneKind,
    pub zones: Vec<SemanticZone>,
    pub word_boundary: Vec<char>,
}

impl Pane {
    /// The stable index of `lines[0]`.
    pub open spec fn base(self) -> int {
        self.dims.scrollback_top as int
    }

    /// Whether stable row `y` is retained in the grid.
    pub open spec fn has_row(self, y: int) -> bool {
        self.base() <= y && y < self.base() + self.lines@.len()
    }

    /// Every retained row is addressable by an `isize` stable index.
    pub open spec fn wf(self) -> bool {
        self.base() + self.lines@.len() <= isize::MAX as int + 1
    }

    /// The cells of stable row `y`.
    pub open spec fn cells_at(self, y: int) -> Seq<Cell>
        recommends
            self.has_row(y),
    {
        self.lines@[y - self.base()].cells@
    }

    /// The change stamp of stable row `y`.
    pub open spec fn row_seqno(self, y: int) -> usize
        recommends
            self.has_row(y),
    {
        self.lines@[y - self.base()].seqno
    }

    /// Whether stable row `y` changed after sequence number `seqno`.
    pub open spec fn row_changed_since(self, y: int, seqno: usize) -> bool {
        self.has_row(y) && self.row_seqno(y) > seqno
    }

    /// Whether stable row `y` ends in a soft-wrap continuation.
    pub open spec fn row_wraps(self, y: int) -> bool {
        &&& self.has_row(y)
        &&& self.cells_at(y).len() > 0
        &&& self.cells_at(y).last().wrapped
    }

    /// Whether stable row `y` and row `y + 1` belong to one logical line.
    pub open spec fn joins_next(self, y: int) -> bool {
        self.row_wraps(y) && self.has_row(y + 1)
    }

    /// The stable index of the first physical row of the logical line
    /// holding row `y`.
    pub open spec fn logical_first(self, y: int) -> int
        decreases y - self.base(),
    {
        if self.joins_next(y - 1) {
            self.logical_first(y - 1)
        } else {
            y
        }
    }

    /// The stable index of the last physical row of the logical line
    /// holding row `y`.
    pub open spec fn logical_last(self, y: int) -> int
        decreases self.base() + self.lines@.len() - y,
    {
        if self.joins_next(y) {
            self.logical_last(y + 1)
        } else {
            y
        }
    }

    /// Whether stable row `y` is retained in the grid.
    pub fn contains_row(&self, y: isize) -> (b: bool)
        ensures
            b == self.has_row(y as int),
    {
        let yi: i128 = y as i128;
        let lo: i128 = self.dims.scrollback_top as i128;
        lo <= yi && yi - lo < self.lines.len() as i128
    }

    /// The grid index of stable row `y`.
    pub fn line_index(&self, y: isize) -> (i: usize)
        requires
            self.has_row(y as int),
        ensures
            i as int == y as int - self.base(),
    {
        ((y as i128) - (self.dims.scrollback_top as i128)) as usize
    }

    /// Whether the row at grid index `i` ends in a soft-wrap continuation.
    pub(crate) fn wraps_at(&self, i: usize) -> (b: bool)
        requires
            i < self.lines.len(),
        ensures
            b == self.row_wraps(self.base() + i),
    {
        let n = self.lines[i].cells.len();
        if n == 0 {
            false
        } else {
            assert(self.cells_at(self.base() + i).last() == self.lines[i as int].cells@[n
                - 1]);
            self.lines[i].cells[n - 1].wrapped
        }
    }

    /// The first physical row of the logical line holding stable row `y`.
    pub fn logical_line_first(&self, y: isize) -> (r: isize)
        ensures
            r as int == self.logical_first(y as int),
    {
        if !self.contains_row(y) {
            assert(!self.joins_next(y as int - 1));
            return y;
        }
        let mut idx = self.line_index(y);
        while idx > 0 && self.wraps_at(idx - 1)
            invariant
                idx < self.lines.len(),
                self.base() + idx <= y as int,
                self.logical_first(self.base() + idx) == self.logical_first(y as int),
            decreases idx,
        {
            assert(self.joins_next(self.base() + idx - 1));
            idx = idx - 1;
        }
        assert(!self.joins_next(self.base() + idx - 1));
        assert(self.logical_first(self.base() + idx) == self.base() + idx);
        let r: i128 = (self.dims.scrollback_top as i128) + (idx as i128);
        r as isize
    }

    /// The last physical row of the logical line holding stable row `y`.
    pub fn logical_line_last(&self, y: isize) -> (r: isize)
        requires
            self.wf(),
        ensures
            r as int == self.logical_last(y as int),
    {
        if !self.contains_row(y) {
            assert(!self.joins_next(y as int));
            return y;
        }
        let mut idx = self.line_index(y);
        while idx + 1 < self.lines.len() && self.wraps_at(idx)
            invariant
                idx < self.lines.len(),
                self.base() + idx >= y as int,
                self.logical_last(self.base() + idx) == self.logical_last(y as int),
            decreases self.lines.len() - idx,
        {
            assert(self.joins_next(self.base() + idx));
            idx = idx + 1;
        }
        assert(!self.joins_next(self.base() + idx));
        assert(self.logical_last(self.base() + idx) == self.base() + idx);
        let r: i128 = (self.dims.scrollback_top as i128) + (idx as i128);
        r as isize
    }

    /// Whether `c` is one of the pane's word-boundary characters.
    pub fn is_word_boundary(&self, c: char) -> (b: bool)
        ensures
            b == self.word_boundary@.contains(c),
    {
        let n = self.word_boundary.len();
        let mut i: usize = 0;
        while i < n
            invariant
                i <= n,
                n == self.word_boundary@.len(),
                forall|j: int| 0 <= j < i ==> self.word_boundary@[j] != c,
            decreases n - i,
        {
            if self.word_boundary[i] == c {
                return true;
            }
            i = i + 1;
        }
        false
    }
}

impl SelectionRange {
    /// What `word_around` returns: the maximal run of word characters
    /// around `coord`, read through the logical line's soft-wrap joins, or
    /// the single cell at `coord` when that cell is missing or holds a
    /// boundary character.
    pub open spec fn spec_word_around(coord: SelectionCoordinate, pane: Pane) -> SelectionRange {
        let cells = pane.cells_at(coord.y as int);
        let boundary = pane.word_boundary@;
        if pane.has_row(coord.y as int) && (coord.x as int) < cells.len() && !boundary.contains(
            cells[coord.x as int].ch,
        ) {
            let f = word_run_first(pane, coord.y as int, coord.x as int);
            let l = word_run_last(pane, coord.y as int, coord.x as int);
            SelectionRange {
                start: SelectionCoordinate { x: f.1 as usize, y: f.0 as isize },
                end: SelectionCoordinate { x: l.1 as usize, y: l.0 as isize },
            }
        } else {
            SelectionRange { start: coord, end: coord }
        }
    }

    /// What `line_around` returns: the full logical line holding `coord`,
    /// from column 0 of its first physical row through the last column of
    /// its last physical row.
    pub open spec fn spec_line_around(coord: SelectionCoordinate, pane: Pane) -> SelectionRange {
        SelectionRange {
            start: SelectionCoordinate { x: 0, y: pane.logical_first(coord.y as int) as isize },
            end: SelectionCoordinate {
                x: if pane.dims.cols == 0 {
                    0usize
                } else {
                    (pane.dims.cols - 1) as usize
                },
                y: pane.logical_last(coord.y as int) as isize,
            },
        }
    }

    /// What `zone_around` returns: the first semantic zone of the pane that
    /// contains `coord`, or the single cell at `coord` when none does.
    pub open spec fn spec_zone_around(coord: SelectionCoordinate, pane: Pane) -> SelectionRange {
        match first_zone(pane.zones@, coord) {
            Some(z) => SelectionRange { start: z.start, end: z.end },
            None => SelectionRange { start: coord, end: coord },
        }
    }

    /// The smallest range covering the word around `coord`, by the pane's
    /// word-boundary classification, read through soft-wrap joins.
    pub fn word_around(coord: SelectionCoordinate, pane: &Pane) -> (r: SelectionRange)
        requires
            pane.wf(),
        ensures
            r == Self::spec_word_around(coord, *pane),
    {
        if !pane.contains_row(coord.y) {
            return SelectionRange { start: coord, end: coord };
        }
        let li = pane.line_index(coord.y);
        if coord.x >= pane.lines[li].cells.len() || pane.is_word_boundary(
            pane.lines[li].cells[coord.x].ch,
        ) {
            return SelectionRange { start: coord, end: coord };
        }
        let ghost y0: int = coord.y as int;
        let ghost x0: int = coord.x as int;

        // Scan left, crossing into any row that soft-wraps into this one.
        let mut fy = li;
        let mut fx = coord.x;
        loop
            invariant
                fy < pane.lines.len(),
                (fx as int) < pane.cells_at(pane.base() + fy).len(),
                word_run_first(*pane, pane.base() + fy, fx as int) == word_run_first(
                    *pane,
                    y0,
                    x0,
                ),
            ensures
                fy < pane.lines.len(),
                word_run_first(*pane, y0, x0) == (pane.base() + fy, fx as int),
            decreases fy, fx,
        {
            if fx > 0 && !pane.is_word_boundary(pane.lines[fy].cells[fx - 1].ch) {
                fx = fx - 1;
            } else if fx == 0 && fy > 0 && pane.wraps_at(fy - 1) {
                let plen = pane.lines[fy - 1].cells.len();
                if !pane.is_word_boundary(pane.lines[fy - 1].cells[plen - 1].ch) {
                    assert(pane.joins_next(pane.base() + fy - 1));
                    fy = fy - 1;
                    fx = plen - 1;
                } else {
                    break ;
                }
            } else {
                break ;
            }
        }
        assert(word_run_first(*pane, y0, x0) == (pane.base() + fy, fx as int));

        // Scan right, crossing the wrapped last cell into the next row of
        // the same logical line.
        let mut ly = li;
        let mut lx = coord.x;
        loop
            invariant
                ly < pane.lines.len(),
                (lx as int) < pane.cells_at(pane.base() + ly).len(),
                word_run_last(*pane, pane.base() + ly, lx as int) == word_run_last(*pane, y0, x0),
            ensures
                ly < pane.lines.len(),
                word_run_last(*pane, y0, x0) == (pane.base() + ly, lx as int),
            decreases pane.lines.len() - ly, pane.lines@[ly as int].cells@.len() - lx,
        {
            let rlen = pane.lines[ly].cells.len();
            if lx + 1 < rlen && !pane.is_word_boundary(pane.lines[ly].cells[lx + 1].ch) {
                lx = lx + 1;
            } else if lx + 1 == rlen && ly + 1 < pane.lines.len() && pane.wraps_at(ly) {
                let nlen = pane.lines[ly + 1].cells.len();
                if nlen > 0 && !pane.is_word_boundary(pane.lines[ly + 1].cells[0].ch) {
                    assert(pane.joins_next(pane.base() + ly));
                    ly = ly + 1;
                    lx = 0;
                } else {
                    break ;
                }
            } else {
                break ;
            }
        }
        assert(word_run_last(*pane, y0, x0) == (pane.base() + ly, lx as int));

        let fy_st: isize = ((pane.dims.scrollback_top as i128) + (fy as i128)) as isize;
        let ly_st: isize = ((pane.dims.scrollback_top as i128) + (ly as i128)) as isize;
        SelectionRange {
            start: SelectionCoordinate { x: fx, y: fy_st },
            end: SelectionCoordinate { x: lx, y: ly_st },
        }
    }

    /// The smallest range covering the full logical line holding `coord`.
    pub fn line_around(coord: SelectionCoordinate, pane: &Pane) -> (r: SelectionRange)
        requires
            pane.wf(),
        ensures
            r == Self::spec_line_around(coord, *pane),
    {
        let first = pane.logical_line_first(coord.y);
        let last = pane.logical_line_last(coord.y);
        let last_col = if pane.dims.cols == 0 {
            0
        } else {
            pane.dims.cols - 1
        };
        SelectionRange {
            start: SelectionCoordinate { x: 0, y: first },
            end: SelectionCoordinate { x: last_col, y: last },
        }
    }

    /// The smallest range covering the semantic zone holding `coord`.
    pub fn zone_around(coord: SelectionCoordinate, pane: &Pane) -> (r: SelectionRange)
        ensures
            r == Self::spec_zone_around(coord, *pane),
    {
        let n = pane.zones.len();
        let mut i: usize = 0;
        assert(pane.zones@.skip(0) =~= pane.zones@);
        while i < n
            invariant
                i <= n,
                n == pane.zones@.len(),
                first_zone(pane.zones@, coord) == first_zone(pane.zones@.skip(i as int), coord),
            decreases n - i,
        {
            let z = pane.zones[i];
            let hit_start = z.start.y < coord.y || (z.start.y == coord.y && z.start.x <= coord.x);
            let hit_end = coord.y < z.end.y || (coord.y == z.end.y && coord.x <= z.end.x);
            assert(pane.zones@.skip(i as int)[0] == pane.zones@[i as int]);
            if hit_start && hit_end {
                assert(zone_contains(z, coord));
                return SelectionRange { start: z.start, end: z.end };
            }
            assert(pane.zones@.skip(i as int).drop_first() =~= pane.zones@.skip(i as int + 1));
            i = i + 1;
        }
        assert(pane.zones@.skip(n as int) =~= Seq::<SemanticZone>::empty());
        SelectionRange { start: coord, end: coord }
    }
}

} // verus!
