//! Range geometry, wrap-join extraction, trimming, dirty-row invalidation,
//! overlay exemption, viewport scrolling, and the word / line / zone modes.

use term_selection::controller::{
    check_for_dirty_lines_and_invalidate_selection, extend_selection_at_mouse_cursor,
    select_text_at_mouse_cursor, ClickPosition, PaneState,
};
use term_selection::pane::{Cell, Line, OverlayKind, Pane, PaneDimensions, PaneKind, SemanticZone};
use term_selection::selection::{
    Selection, SelectionCoordinate, SelectionMode, SelectionRange,
};
use term_selection::text::selection_text;

fn line(s: &str) -> Line {
    Line {
        cells: s.chars().map(|ch| Cell { ch, wrapped: false }).collect(),
        seqno: 0,
    }
}

fn wrapped_line(s: &str) -> Line {
    let mut l = line(s);
    if let Some(c) = l.cells.last_mut() {
        c.wrapped = true;
    }
    l
}

fn small_pane(lines: Vec<Line>, cols: usize, viewport_rows: usize) -> Pane {
    let rows = lines.len();
    Pane {
        dims: PaneDimensions {
            cols,
            viewport_rows,
            scrollback_rows: rows,
            physical_top: 0,
            scrollback_top: 0,
        },
        lines,
        seqno: 0,
        kind: PaneKind::Content,
        zones: vec![],
        word_boundary: " \t".chars().collect(),
    }
}

fn coords(column: usize, row: i64, buffer_row: isize) -> Option<(ClickPosition, isize)> {
    Some((
        ClickPosition {
            column,
            row,
            x_pixel_offset: 0,
            y_pixel_offset: 0,
        },
        buffer_row,
    ))
}

fn range(sx: usize, sy: isize, ex: usize, ey: isize) -> SelectionRange {
    SelectionRange {
        start: SelectionCoordinate { x: sx, y: sy },
        end: SelectionCoordinate { x: ex, y: ey },
    }
}

fn selection_of(r: SelectionRange, seqno: usize) -> Selection {
    Selection {
        origin: Some(r.start),
        range: Some(r),
        seqno,
    }
}

#[test]
fn normalize_orders_and_is_idempotent() {
    let r = range(5, 3, 1, 2);
    let n = r.normalize();
    assert_eq!(n, range(1, 2, 5, 3));
    assert_eq!(n.normalize(), n);
    // already-ordered ranges come back unchanged
    let o = range(2, 0, 7, 0);
    assert_eq!(o.normalize(), o);
}

#[test]
fn cols_for_row_backed_off_windows() {
    // forward drag on one row: origin column 6, raw pointer column 11
    let fwd = range(6, 3, 10, 3);
    assert_eq!(fwd.cols_for_row(3), (6, 11));
    // backward drag on one row: origin column 6, pointer column 1
    let bwd = range(5, 3, 1, 3);
    assert_eq!(bwd.cols_for_row(3), (1, 6));
    // rows outside the span cover nothing
    assert_eq!(fwd.cols_for_row(2), (0, 0));
}

#[test]
fn selection_text_empty_selection() {
    let pane = small_pane(vec![line("abc")], 3, 1);
    let empty = Selection {
        origin: None,
        range: None,
        seqno: 0,
    };
    assert_eq!(selection_text(&empty, &pane), "");
    // reading the text mutates nothing: a second call agrees
    assert_eq!(selection_text(&empty, &pane), "");
}

#[test]
fn selection_text_joins_wrapped_rows() {
    let pane = small_pane(vec![wrapped_line("abc"), line("def")], 3, 2);
    let sel = selection_of(range(0, 0, 2, 1), 0);
    assert_eq!(selection_text(&sel, &pane), "abcdef");
}

#[test]
fn selection_text_separates_unwrapped_rows() {
    let pane = small_pane(vec![line("abc"), line("def")], 3, 2);
    let sel = selection_of(range(0, 0, 2, 1), 0);
    assert_eq!(selection_text(&sel, &pane), "abc\ndef");
}

#[test]
fn selection_text_trims_only_final_row_of_logical_line() {
    // unwrapped: both rows end their logical lines, both get trimmed
    let pane = small_pane(vec![line("ab "), line("cd ")], 3, 2);
    let sel = selection_of(range(0, 0, 2, 1), 0);
    assert_eq!(selection_text(&sel, &pane), "ab\ncd");

    // wrapped: the first row is interior to its logical line and keeps
    // its trailing blank verbatim
    let pane = small_pane(vec![wrapped_line("ab "), line("cd ")], 3, 2);
    let sel = selection_of(range(0, 0, 2, 1), 0);
    assert_eq!(selection_text(&sel, &pane), "ab cd");
}

#[test]
fn dirty_rows_inside_selection_clear_it() {
    let mut pane = small_pane(vec![line("aa"), line("bb"), line("cc"), line("dd")], 2, 4);
    pane.lines[2].seqno = 10;
    pane.seqno = 10;
    let mut state = PaneState::new();
    state.selection = selection_of(range(0, 1, 1, 3), 5);

    check_for_dirty_lines_and_invalidate_selection(&mut state, &pane);

    assert!(state.selection.range.is_none());
    assert!(state.selection.origin.is_none());
    assert_eq!(state.selection.seqno, 10);
}

#[test]
fn dirty_rows_outside_selection_leave_it() {
    let mut pane = small_pane(vec![line("aa"), line("bb"), line("cc"), line("dd")], 2, 4);
    pane.lines[2].seqno = 10;
    pane.seqno = 10;
    let mut state = PaneState::new();
    state.selection = selection_of(range(0, 0, 1, 0), 5);

    check_for_dirty_lines_and_invalidate_selection(&mut state, &pane);

    assert_eq!(state.selection.range, Some(range(0, 0, 1, 0)));
    assert!(state.selection.origin.is_some());
    assert_eq!(state.selection.seqno, 5);
}

#[test]
fn dirty_rows_outside_viewport_leave_selection() {
    // the changed row sits in the selection's span but below the one-row
    // viewport, so it does not count
    let mut pane = small_pane(vec![line("aa"), line("bb"), line("cc"), line("dd")], 2, 1);
    pane.lines[2].seqno = 10;
    pane.seqno = 10;
    let mut state = PaneState::new();
    state.selection = selection_of(range(0, 1, 1, 3), 5);

    check_for_dirty_lines_and_invalidate_selection(&mut state, &pane);

    assert!(state.selection.range.is_some());
    assert_eq!(state.selection.seqno, 5);
}

#[test]
fn overlay_panes_keep_their_selection() {
    let mut pane = small_pane(vec![line("aa"), line("bb"), line("cc"), line("dd")], 2, 4);
    pane.lines[2].seqno = 10;
    pane.seqno = 10;
    pane.kind = PaneKind::Overlay(OverlayKind::Search);
    let mut state = PaneState::new();
    state.selection = selection_of(range(0, 1, 1, 3), 5);

    check_for_dirty_lines_and_invalidate_selection(&mut state, &pane);

    assert_eq!(state.selection.range, Some(range(0, 1, 1, 3)));
    assert!(state.selection.origin.is_some());
    assert_eq!(state.selection.seqno, 5);
}

#[test]
fn drag_above_top_scrolls_up_one_row() {
    let mut pane = small_pane(
        vec![line("aa"), line("bb"), line("cc"), line("dd"), line("ee")],
        2,
        3,
    );
    pane.dims.physical_top = 2;
    let mut state = PaneState::new();
    state.mouse_terminal_coords = Some((
        ClickPosition {
            column: 0,
            row: 0,
            x_pixel_offset: 0,
            y_pixel_offset: -1,
        },
        2,
    ));
    extend_selection_at_mouse_cursor(&mut state, Some(SelectionMode::Cell), &pane);
    assert_eq!(state.viewport, Some(1));
}

#[test]
fn drag_past_bottom_scrolls_down_one_row() {
    let mut pane = small_pane(
        vec![line("aa"), line("bb"), line("cc"), line("dd"), line("ee")],
        2,
        3,
    );
    pane.dims.physical_top = 2;
    // no viewport recorded: one row below the physical top
    let mut state = PaneState::new();
    state.mouse_terminal_coords = coords(0, 3, 4);
    extend_selection_at_mouse_cursor(&mut state, Some(SelectionMode::Cell), &pane);
    assert_eq!(state.viewport, Some(3));

    // a recorded viewport scrolls from where it stood
    let mut state = PaneState::new();
    state.viewport = Some(0);
    state.mouse_terminal_coords = coords(0, 3, 4);
    extend_selection_at_mouse_cursor(&mut state, Some(SelectionMode::Cell), &pane);
    assert_eq!(state.viewport, Some(1));
}

#[test]
fn extend_without_tracked_pointer_is_a_no_op() {
    let mut pane = small_pane(vec![line("aa")], 2, 1);
    pane.seqno = 9;
    let mut state = PaneState::new();
    state.selection = selection_of(range(0, 0, 1, 0), 2);
    state.mouse_terminal_coords = None;

    let redraw = extend_selection_at_mouse_cursor(&mut state, Some(SelectionMode::Cell), &pane);

    assert!(!redraw);
    assert_eq!(state.selection.range, Some(range(0, 0, 1, 0)));
    assert_eq!(state.selection.seqno, 2);
    assert!(state.viewport.is_none());
}

#[test]
fn trailing_unicode_whitespace_is_trimmed() {
    // a no-break space and an ideographic space pad the row's end; both
    // are trimmed from the final physical row of the logical line
    let pane = small_pane(vec![line("ab\u{A0}\u{3000}")], 4, 1);
    let sel = selection_of(range(0, 0, 3, 0), 0);
    assert_eq!(selection_text(&sel, &pane), "ab");
}

#[test]
fn word_mode_selects_and_extends_whole_words() {
    let pane = small_pane(vec![line("foo bar baz")], 11, 1);
    let mut state = PaneState::new();

    state.mouse_terminal_coords = coords(5, 0, 0);
    select_text_at_mouse_cursor(&mut state, SelectionMode::Word, &pane);
    assert_eq!(state.selection.origin, Some(SelectionCoordinate { x: 4, y: 0 }));
    assert_eq!(state.selection.range, Some(range(4, 0, 6, 0)));
    assert_eq!(selection_text(&state.selection, &pane), "bar");

    state.mouse_terminal_coords = coords(9, 0, 0);
    extend_selection_at_mouse_cursor(&mut state, Some(SelectionMode::Word), &pane);
    assert_eq!(state.selection.range, Some(range(4, 0, 10, 0)));
    assert_eq!(selection_text(&state.selection, &pane), "bar baz");
}

#[test]
fn word_mode_follows_a_word_across_a_soft_wrap() {
    let pane = small_pane(vec![wrapped_line("a wo"), line("rd b")], 4, 2);
    let mut state = PaneState::new();

    state.mouse_terminal_coords = coords(3, 0, 0);
    select_text_at_mouse_cursor(&mut state, SelectionMode::Word, &pane);
    assert_eq!(state.selection.range, Some(range(2, 0, 1, 1)));
    assert_eq!(selection_text(&state.selection, &pane), "word");
}

#[test]
fn line_mode_selects_the_whole_logical_line() {
    let pane = small_pane(vec![wrapped_line("abc"), line("def"), line("xyz")], 3, 3);
    let mut state = PaneState::new();

    state.mouse_terminal_coords = coords(1, 1, 1);
    select_text_at_mouse_cursor(&mut state, SelectionMode::Line, &pane);
    assert_eq!(state.selection.origin, Some(SelectionCoordinate { x: 0, y: 0 }));
    assert_eq!(state.selection.range, Some(range(0, 0, 2, 1)));
    assert_eq!(selection_text(&state.selection, &pane), "abcdef");
}

#[test]
fn zone_mode_selects_the_enclosing_zone() {
    let mut pane = small_pane(vec![line("ab"), line("cd")], 2, 2);
    pane.zones = vec![SemanticZone {
        start: SelectionCoordinate { x: 0, y: 0 },
        end: SelectionCoordinate { x: 1, y: 1 },
    }];
    let mut state = PaneState::new();

    state.mouse_terminal_coords = coords(1, 0, 0);
    select_text_at_mouse_cursor(&mut state, SelectionMode::SemanticZone, &pane);
    assert_eq!(state.selection.range, Some(range(0, 0, 1, 1)));
    assert_eq!(selection_text(&state.selection, &pane), "ab\ncd");
}

#[test]
fn zone_mode_outside_any_zone_selects_one_cell() {
    let mut pane = small_pane(vec![line("ab"), line("cd")], 2, 2);
    pane.zones = vec![SemanticZone {
        start: SelectionCoordinate { x: 0, y: 0 },
        end: SelectionCoordinate { x: 1, y: 0 },
    }];
    let mut state = PaneState::new();

    state.mouse_terminal_coords = coords(0, 1, 1);
    select_text_at_mouse_cursor(&mut state, SelectionMode::SemanticZone, &pane);
    assert_eq!(state.selection.range, Some(range(0, 1, 0, 1)));
    assert_eq!(selection_text(&state.selection, &pane), "c");
}

#[test]
fn cell_click_alone_selects_nothing() {
    let pane = small_pane(vec![line("abc")], 3, 1);
    let mut state = PaneState::new();
    state.mouse_terminal_coords = coords(1, 0, 0);
    select_text_at_mouse_cursor(&mut state, SelectionMode::Cell, &pane);
    assert_eq!(state.selection.origin, Some(SelectionCoordinate { x: 1, y: 0 }));
    assert!(state.selection.range.is_none());
    assert_eq!(selection_text(&state.selection, &pane), "");
}
