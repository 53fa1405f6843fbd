//! The stateless selection controller: beginning a selection under a chosen
//! mode, growing it toward the pointer cell (scrolling the viewport when the
//! pointer leaves its vertical bounds), and clearing it when rows it covers
//! are reported changed. All operations work on an explicit per-pane
//! `PaneState` and a pane snapshot; each is a complete, atomic transition.

use vstd::prelude::*;

use crate::pane::{Pane, PaneKind};
use crate::selection::{Selection, SelectionCoordinate, SelectionMode, SelectionRange};

verus! {

/// A pane-relative pointer position: the cell column, the viewport-relative
/// row, and the pixel offsets of the pointer within that cell.
#[derive(Clone, Copy, Debug)]
pub struct ClickPosition {
    pub column: usize,
    pub row: i64,
    pub x_pixel_offset: isize,
    pub y_pixel_offset: isize,
}

/// Mutable per-pane UI state: the selection, the recorded viewport top (or
/// `None` for the default), and the tracked pointer cell, if any, as the
/// click position plus the stable row it falls on.
#[derive(Debug)]
pub struct PaneState {
    pub selection: Selection,
    pub viewport: Option<isize>,
    pub mouse_terminal_coords: Option<(ClickPosition, isize)>,
}

impl PaneState {
    /// Fresh state: nothing selected, default viewport, no pointer tracked.
    pub fn new() -> (s: PaneState)
        ensures
            s.selection.origin is None,
            s.selection.range is None,
            s.selection.seqno == 0,
            s.viewport is None,
            s.mouse_terminal_coords is None,
    {
        PaneState { selection: Selection::new(), viewport: None, mouse_terminal_coords: None }
    }
}

impl Default for PaneState {
    /// Fresh state, as `PaneState::new`.
    fn default() -> (s: PaneState)
        ensures
            s.selection.origin is None,
            s.selection.range is None,
            s.selection.seqno == 0,
            s.viewport is None,
            s.mouse_terminal_coords is None,
    {
        PaneState::new()
    }
}

/// `x - 1`, capped at zero.
pub open spec fn col_before(x: usize) -> usize {
    if x == 0 {
        0
    } else {
        (x - 1) as usize
    }
}

/// `y - 1`, capped at `isize::MIN`.
pub open spec fn row_above(y: isize) -> isize {
    if y == isize::MIN {
        y
    } else {
        (y - 1) as isize
    }
}

/// `t + 1`, capped at `isize::MAX`.
pub open spec fn row_below(t: isize) -> isize {
    if t == isize::MAX {
        t
    } else {
        (t + 1) as isize
    }
}

/// The enclosing unit a non-Cell mode selects around a coordinate: the
/// word, the full logical line, or the semantic zone there.
pub open spec fn unit_around(mode: SelectionMode, c: SelectionCoordinate, pane: Pane) -> SelectionRange {
    match mode {
        SelectionMode::Cell => SelectionRange { start: c, end: c },
        SelectionMode::Word => SelectionRange::spec_word_around(c, pane),
        SelectionMode::Line => SelectionRange::spec_line_around(c, pane),
        SelectionMode::SemanticZone => SelectionRange::spec_zone_around(c, pane),
    }
}

/// The Cell-mode range for an anchor and a pointer cell: `None` when the
/// pointer still sits on the anchor (a bare click selects nothing);
/// otherwise a range that backs off one column from the far side — the
/// pointer column when the pointer is at or past the anchor (same row at or
/// after its column, or any later row), the anchor column in the mirrored
/// case.
pub open spec fn cell_extended_range(
    origin: SelectionCoordinate,
    x: usize,
    y: isize,
) -> Option<SelectionRange> {
    if origin.x == x && origin.y == y {
        None
    } else {
        let fwd = (origin.x <= x && origin.y == y) || origin.y < y;
        Some(
            SelectionRange {
                start: SelectionCoordinate {
                    x: if fwd {
                        origin.x
                    } else {
                        col_before(origin.x)
                    },
                    y: origin.y,
                },
                end: SelectionCoordinate {
                    x: if fwd {
                        col_before(x)
                    } else {
                        x
                    },
                    y,
                },
            },
        )
    }
}

/// Where the viewport stands after an extend gesture: one row above the
/// pointer row when the pointer sits on the top on-screen row above its
/// vertical pixel midpoint, one row below the recorded top (or the physical
/// top when none is recorded) when the pointer is at or past the last
/// viewport row, and unchanged otherwise.
pub open spec fn scrolled_viewport(
    vp: Option<isize>,
    pos: ClickPosition,
    y: isize,
    pane: Pane,
) -> Option<isize> {
    if pos.row == 0 && pos.y_pixel_offset < 0 {
        Some(row_above(y))
    } else if pos.row >= pane.dims.viewport_rows as i64 {
        Some(
            row_below(
                match vp {
                    Some(t) => t,
                    None => pane.dims.physical_top,
                },
            ),
        )
    } else {
        vp
    }
}

/// Begins a selection at the tracked pointer cell: a no-op when no pointer
/// position is tracked; under Cell mode only the anchor is set (a drag must
/// follow before anything is selected); under Word, Line and SemanticZone
/// the enclosing unit becomes the range and its start the anchor. Stamps
/// the selection with the pane's current sequence number and reports
/// whether a redraw is owed.
pub fn select_text_at_mouse_cursor(
    state: &mut PaneState,
    mode: SelectionMode,
    pane: &Pane,
) -> (redraw: bool)
    requires
        pane.wf(),
    ensures
        final(state).viewport == old(state).viewport,
        final(state).mouse_terminal_coords == old(state).mouse_terminal_coords,
        old(state).mouse_terminal_coords is None ==> !redraw && *final(state) == *old(state),
        old(state).mouse_terminal_coords matches Some(coords) ==> {
            let c = SelectionCoordinate { x: coords.0.column, y: coords.1 };
            &&& redraw
            &&& final(state).selection.seqno == pane.seqno
            &&& (mode == SelectionMode::Cell ==> final(state).selection.origin == Some(c)
                && final(state).selection.range is None)
            &&& (mode != SelectionMode::Cell ==> {
                let unit = unit_around(mode, c, *pane);
                &&& final(state).selection.origin == Some(unit.start)
                &&& final(state).selection.range == Some(unit)
            })
        },
{
    let (x, y) = match &state.mouse_terminal_coords {
        Some(coords) => (coords.0.column, coords.1),
        None => {
            return false;
        },
    };
    let c = SelectionCoordinate { x, y };
    match mode {
        SelectionMode::Cell => {
            state.selection.begin(c);
        },
        SelectionMode::Word => {
            let unit = SelectionRange::word_around(c, pane);
            state.selection.origin = Some(unit.start);
            state.selection.range = Some(unit);
        },
        SelectionMode::Line => {
            let unit = SelectionRange::line_around(c, pane);
            state.selection.origin = Some(unit.start);
            state.selection.range = Some(unit);
        },
        SelectionMode::SemanticZone => {
            let unit = SelectionRange::zone_around(c, pane);
            state.selection.origin = Some(unit.start);
            state.selection.range = Some(unit);
        },
    }
    state.selection.seqno = pane.seqno;
    true
}

/// Grows the selection toward the tracked pointer cell. With no tracked
/// pointer the call is a complete no-op: nothing is mutated and no redraw
/// is owed. Otherwise the selection is restamped with the pane's sequence
/// number; under Cell mode the anchor is adopted from the pointer when
/// unset and the range becomes `cell_extended_range`; under the other
/// modes the units around the pointer and around the anchor (or, with no
/// anchor, the pointer's unit alone) are unioned. Finally the viewport
/// scrolls by one row when the pointer left its vertical bounds.
pub fn extend_selection_at_mouse_cursor(
    state: &mut PaneState,
    mode: Option<SelectionMode>,
    pane: &Pane,
) -> (redraw: bool)
    requires
        pane.wf(),
    ensures
        final(state).mouse_terminal_coords == old(state).mouse_terminal_coords,
        old(state).mouse_terminal_coords is None ==> !redraw && *final(state) == *old(state),
        old(state).mouse_terminal_coords matches Some(coords) ==> {
            let m = if mode is Some {
                mode->0
            } else {
                SelectionMode::Cell
            };
            let x = coords.0.column;
            let y = coords.1;
            let c = SelectionCoordinate { x, y };
            &&& redraw
            &&& final(state).selection.seqno == pane.seqno
            &&& final(state).viewport == scrolled_viewport(
                old(state).viewport,
                coords.0,
                y,
                *pane,
            )
            &&& (m == SelectionMode::Cell ==> {
                let o = match old(state).selection.origin {
                    Some(o) => o,
                    None => c,
                };
                &&& final(state).selection.origin == Some(o)
                &&& final(state).selection.range == cell_extended_range(o, x, y)
            })
            &&& (m != SelectionMode::Cell ==> {
                let end_unit = unit_around(m, c, *pane);
                let start_coord = match old(state).selection.origin {
                    Some(o) => o,
                    None => end_unit.start,
                };
                let start_unit = unit_around(m, start_coord, *pane);
                &&& final(state).selection.origin == old(state).selection.origin
                &&& final(state).selection.range == Some(start_unit.spec_extend_with(end_unit))
            })
        },
{
    let (pos, y) = match &state.mouse_terminal_coords {
        Some(coords) => (coords.0, coords.1),
        None => {
            return false;
        },
    };
    state.selection.seqno = pane.seqno;
    let x = pos.column;
    let c = SelectionCoordinate { x, y };
    let m = match mode {
        Some(m) => m,
        None => SelectionMode::Cell,
    };
    match m {
        SelectionMode::Cell => {
            let origin = match &state.selection.origin {
                Some(o) => *o,
                None => c,
            };
            state.selection.origin = Some(origin);
            let (start_x, end_x) = if (origin.x <= x && origin.y == y) || origin.y < y {
                (origin.x, if x == 0 { 0 } else { x - 1 })
            } else {
                (if origin.x == 0 { 0 } else { origin.x - 1 }, x)
            };
            state.selection.range = if origin.x != x || origin.y != y {
                Some(
                    SelectionRange::start(
                        SelectionCoordinate { x: start_x, y: origin.y },
                    ).extend(SelectionCoordinate { x: end_x, y }),
                )
            } else {
                None
            };
        },
        SelectionMode::Word => {
            let end_unit = SelectionRange::word_around(c, pane);
            let start_coord = match &state.selection.origin {
                Some(o) => *o,
                None => end_unit.start,
            };
            let start_unit = SelectionRange::word_around(start_coord, pane);
            state.selection.range = Some(start_unit.extend_with(end_unit));
        },
        SelectionMode::Line => {
            let end_unit = SelectionRange::line_around(c, pane);
            let start_coord = match &state.selection.origin {
                Some(o) => *o,
                None => end_unit.start,
            };
            let start_unit = SelectionRange::line_around(start_coord, pane);
            state.selection.range = Some(start_unit.extend_with(end_unit));
        },
        SelectionMode::SemanticZone => {
            let end_unit = SelectionRange::zone_around(c, pane);
            let start_coord = match &state.selection.origin {
                Some(o) => *o,
                None => end_unit.start,
            };
            let start_unit = SelectionRange::zone_around(start_coord, pane);
            state.selection.range = Some(start_unit.extend_with(end_unit));
        },
    }

    // Scroll the viewport by one row when the pointer leaves its vertical
    // bounds, so a drag can keep extending into scrollback or new content.
    if pos.row == 0 && pos.y_pixel_offset < 0 {
        state.viewport = Some(if y == isize::MIN { y } else { y - 1 });
    } else if pos.row >= pane.dims.viewport_rows as i64 {
        let top = match &state.viewport {
            Some(t) => *t,
            None => pane.dims.physical_top,
        };
        state.viewport = Some(if top == isize::MAX { top } else { top + 1 });
    }
    true
}

/// The viewport top visibility is judged against: the recorded one, or the
/// pane's physical top when none is recorded.
pub open spec fn effective_viewport(state: PaneState, pane: Pane) -> int {
    match state.viewport {
        Some(t) => t as int,
        None => pane.dims.physical_top as int,
    }
}

/// Whether stable row `y` lies in the visible row range.
pub open spec fn row_visible(state: PaneState, pane: Pane, y: int) -> bool {
    effective_viewport(state, pane) <= y < effective_viewport(state, pane)
        + pane.dims.viewport_rows
}

/// Whether a change to row `y` would invalidate the selection range `r`:
/// the row lies in the normalized range's row span, is visible, and changed
/// after the selection's sequence number.
pub open spec fn row_invalidates(state: PaneState, pane: Pane, r: SelectionRange, y: int) -> bool {
    &&& r.norm().start.y <= y <= r.norm().end.y
    &&& row_visible(state, pane, y)
    &&& pane.row_changed_since(y, state.selection.seqno)
}

/// Whether some visible row of the current selection's span changed after
/// the selection was established.
pub open spec fn dirty_hits_selection(state: PaneState, pane: Pane) -> bool {
    &&& state.selection.range is Some
    &&& exists|y: int| #[trigger] row_invalidates(state, pane, state.selection.range->0, y)
}

/// Clears a stale selection: when a visible row inside the selection's row
/// span changed after the selection's sequence number, both range and
/// anchor are cleared and the sequence number restamped. Overlay panes own
/// their selection for highlighting and are never auto-cleared; with no
/// conflict nothing changes.
pub fn check_for_dirty_lines_and_invalidate_selection(state: &mut PaneState, pane: &Pane)
    ensures
        final(state).viewport == old(state).viewport,
        final(state).mouse_terminal_coords == old(state).mouse_terminal_coords,
        pane.kind matches PaneKind::Overlay(_) ==> *final(state) == *old(state),
        (pane.kind == PaneKind::Content && dirty_hits_selection(*old(state), *pane)) ==> {
            &&& final(state).selection.range is None
            &&& final(state).selection.origin is None
            &&& final(state).selection.seqno == pane.seqno
        },
        !(pane.kind == PaneKind::Content && dirty_hits_selection(*old(state), *pane))
            ==> *final(state) == *old(state),
{
    let r = match &state.selection.range {
        None => {
            return ;
        },
        Some(r) => *r,
    };
    match pane.kind {
        PaneKind::Overlay(_) => {
            return ;
        },
        PaneKind::Content => {},
    }
    let vp: isize = match &state.viewport {
        Some(t) => *t,
        None => pane.dims.physical_top,
    };
    let rows = r.rows();
    let fr = rows.0;
    let lr = rows.1;
    let seq0 = state.selection.seqno;
    let nl = pane.lines.len();
    let mut hit = false;
    let mut i: usize = 0;
    while i < nl && !hit
        invariant
            nl == pane.lines@.len(),
            i <= nl,
            fr as int == r.norm().start.y as int,
            lr as int == r.norm().end.y as int,
            vp as int == effective_viewport(*state, *pane),
            seq0 == state.selection.seqno,
            state.selection.range == Some(r),
            hit ==> dirty_hits_selection(*state, *pane),
            !hit ==> forall|y: int|
                pane.base() <= y < pane.base() + i ==> !row_invalidates(*state, *pane, r, y),
        decreases nl - i,
    {
        let y: i128 = (pane.dims.scrollback_top as i128) + (i as i128);
        let in_span = (fr as i128) <= y && y <= (lr as i128);
        let visible = (vp as i128) <= y && y - (vp as i128) < (pane.dims.viewport_rows as i128);
        let changed = pane.lines[i].seqno > seq0;
        if in_span && visible && changed {
            proof {
                let yw: int = pane.base() + i;
                assert(state.selection.range->0 == r);
                assert(row_invalidates(*state, *pane, state.selection.range->0, yw));
                assert(dirty_hits_selection(*state, *pane));
            }
            hit = true;
        }
        i = i + 1;
    }
    if hit {
        state.selection.range = None;
        state.selection.origin = None;
        state.selection.seqno = pane.seqno;
    } else {
        proof {
            assert(forall|y: int|
                !pane.has_row(y) ==> !row_invalidates(*state, *pane, r, y));
            assert(forall|y: int| !row_invalidates(*state, *pane, r, y));
        }
    }
}

/// Law: a Cell-mode extend whose pointer still sits on the anchor yields no
/// range at all.
pub proof fn lemma_cell_extend_same_cell(origin: SelectionCoordinate)
    ensures
        cell_extended_range(origin, origin.x, origin.y) is None,
{
}

/// Law: a Cell-mode extend strictly after the anchor on its own row covers
/// the half-open column window from the anchor's column to the pointer's.
pub proof fn lemma_cell_extend_cols_forward(origin: SelectionCoordinate, x: usize)
    requires
        origin.x < x,
    ensures
        cell_extended_range(origin, x, origin.y) is Some,
        cell_extended_range(origin, x, origin.y)->0.spec_cols_for_row(origin.y) == (origin.x, x),
{
}

/// Law: a Cell-mode extend strictly before the anchor on its own row covers
/// the half-open column window from the pointer's column to the anchor's.
pub proof fn lemma_cell_extend_cols_backward(origin: SelectionCoordinate, x: usize)
    requires
        x < origin.x,
    ensures
        cell_extended_range(origin, x, origin.y) is Some,
        cell_extended_range(origin, x, origin.y)->0.spec_cols_for_row(origin.y) == (x, origin.x),
{
}

} // verus!

