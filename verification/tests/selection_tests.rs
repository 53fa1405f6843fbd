//! Cell-mode drag gestures against a seven-row fixture pane.

use term_selection::controller::{
    extend_selection_at_mouse_cursor, select_text_at_mouse_cursor, ClickPosition, PaneState,
};
use term_selection::pane::{Cell, Line, Pane, PaneDimensions, PaneKind};
use term_selection::selection::{SelectionCoordinate, SelectionMode, SelectionRange};
use term_selection::text::selection_text;

fn line(s: &str) -> Line {
    Line {
        cells: s.chars().map(|ch| Cell { ch, wrapped: false }).collect(),
        seqno: 0,
    }
}

fn test_pane() -> Pane {
    Pane {
        dims: PaneDimensions {
            cols: 40,
            viewport_rows: 3,
            scrollback_rows: 7,
            physical_top: 4,
            scrollback_top: 0,
        },
        lines: vec![
            line("0000000000000000000000000000000000000000"),
            line("LwqSxlBaoRF8ikBQ4n9roGxXoku6FITVfBy0tfIe"),
            line("wez term and rust rocks wYy7d7cz4AnB4a4s"),
            line("HHTci_+_jnLNwkIV3SrWzthAA1ZZVWQHpA8NTP0t"),
            line("n6yuizjKsSOA4LyCWmkMR_+_D9amfXWjglQEsFth"),
            line("btKm94BK9f1KJJgHq67TSrTXM4UPcgLttCxODHrI"),
            line("1111111111111111111111111111111111111111"),
        ],
        seqno: 0,
        kind: PaneKind::Content,
        zones: vec![],
        word_boundary: " \t\n{}[]()\"'`".chars().collect(),
    }
}

fn terminal_coords(column: usize, row: i64, buffer_row: isize) -> Option<(ClickPosition, isize)> {
    Some((
        ClickPosition {
            column,
            row,
            x_pixel_offset: 0,
            y_pixel_offset: 0,
        },
        buffer_row,
    ))
}

#[test]
fn test_selection_cell_no_selection_on_same_cell() {
    let mut state = PaneState::new();
    let pane = test_pane();

    state.mouse_terminal_coords = terminal_coords(6, 1, 3);
    select_text_at_mouse_cursor(&mut state, SelectionMode::Cell, &pane);

    state.mouse_terminal_coords = terminal_coords(6, 1, 3);
    extend_selection_at_mouse_cursor(&mut state, Some(SelectionMode::Cell), &pane);

    assert!(
        state.selection.range.is_none(),
        "selection needs to be none"
    );
    assert_eq!(
        selection_text(&state.selection, &pane),
        "",
        "wrong selection text"
    );
}

#[test]
fn test_selection_cell_same_line() {
    let mut state = PaneState::new();
    let pane = test_pane();

    // set selection origin
    state.mouse_terminal_coords = terminal_coords(6, 1, 3);
    select_text_at_mouse_cursor(&mut state, SelectionMode::Cell, &pane);

    // select after cursor
    state.mouse_terminal_coords = terminal_coords(11, 1, 3);
    extend_selection_at_mouse_cursor(&mut state, Some(SelectionMode::Cell), &pane);

    let SelectionRange { start, end } = state.selection.range.expect("selection was none");

    assert_eq!(
        start,
        SelectionCoordinate { x: 6, y: 3 },
        "wrong start coords"
    );
    assert_eq!(end, SelectionCoordinate { x: 10, y: 3 }, "wrong end coords");
    assert_eq!(
        selection_text(&state.selection, &pane),
        "+_jnL",
        "wrong selection text"
    );

    // select before cursor
    state.mouse_terminal_coords = terminal_coords(1, 1, 3);
    extend_selection_at_mouse_cursor(&mut state, Some(SelectionMode::Cell), &pane);

    let SelectionRange { start, end } = state.selection.range.expect("selection was none");

    assert_eq!(
        start,
        SelectionCoordinate { x: 5, y: 3 },
        "wrong start coords"
    );
    assert_eq!(end, SelectionCoordinate { x: 1, y: 3 }, "wrong end coords");
    assert_eq!(
        selection_text(&state.selection, &pane),
        "HTci_",
        "wrong selection text"
    );
}

#[test]
fn test_selection_cell_next_lines() {
    let mut state = PaneState::new();
    let pane = test_pane();

    state.mouse_terminal_coords = terminal_coords(6, 1, 3);
    select_text_at_mouse_cursor(&mut state, SelectionMode::Cell, &pane);

    // select after cursor x
    state.mouse_terminal_coords = terminal_coords(11, 1, 5);
    extend_selection_at_mouse_cursor(&mut state, Some(SelectionMode::Cell), &pane);

    let SelectionRange { start, end } = state.selection.range.expect("selection was none");

    assert_eq!(
        start,
        SelectionCoordinate { x: 6, y: 3 },
        "wrong start coords"
    );
    assert_eq!(end, SelectionCoordinate { x: 10, y: 5 }, "wrong end coords");
    assert_eq!(
        selection_text(&state.selection, &pane),
        "+_jnLNwkIV3SrWzthAA1ZZVWQHpA8NTP0t\nn6yuizjKsSOA4LyCWmkMR_+_D9amfXWjglQEsFth\nbtKm94BK9f1",
        "wrong selection text"
    );

    // select before cursor x
    state.mouse_terminal_coords = terminal_coords(1, 1, 5);
    extend_selection_at_mouse_cursor(&mut state, Some(SelectionMode::Cell), &pane);

    let SelectionRange { start, end } = state.selection.range.expect("selection was none");

    assert_eq!(
        start,
        SelectionCoordinate { x: 6, y: 3 },
        "wrong start coords"
    );
    assert_eq!(end, SelectionCoordinate { x: 0, y: 5 }, "wrong end coords");
    assert_eq!(
        selection_text(&state.selection, &pane),
        "+_jnLNwkIV3SrWzthAA1ZZVWQHpA8NTP0t\nn6yuizjKsSOA4LyCWmkMR_+_D9amfXWjglQEsFth\nb",
        "wrong selection text"
    );
}

#[test]
fn test_selection_cell_previous_lines() {
    let mut state = PaneState::new();
    let pane = test_pane();

    state.mouse_terminal_coords = terminal_coords(6, 1, 3);
    select_text_at_mouse_cursor(&mut state, SelectionMode::Cell, &pane);

    // select after cursor x
    state.mouse_terminal_coords = terminal_coords(11, 1, 1);
    extend_selection_at_mouse_cursor(&mut state, Some(SelectionMode::Cell), &pane);

    let SelectionRange { start, end } = state.selection.range.expect("selection was none");

    assert_eq!(
        start,
        SelectionCoordinate { x: 5, y: 3 },
        "wrong start coords"
    );
    assert_eq!(end, SelectionCoordinate { x: 11, y: 1 }, "wrong end coords");
    assert_eq!(
        selection_text(&state.selection, &pane),
        "8ikBQ4n9roGxXoku6FITVfBy0tfIe\nwez term and rust rocks wYy7d7cz4AnB4a4s\nHHTci_",
        "wrong selection text"
    );

    // select before cursor x
    state.mouse_terminal_coords = terminal_coords(1, 1, 1);
    extend_selection_at_mouse_cursor(&mut state, Some(SelectionMode::Cell), &pane);

    let SelectionRange { start, end } = state.selection.range.expect("selection was none");

    assert_eq!(
        start,
        SelectionCoordinate { x: 5, y: 3 },
        "wrong start coords"
    );
    assert_eq!(end, SelectionCoordinate { x: 1, y: 1 }, "wrong end coords");
    assert_eq!(
        selection_text(&state.selection, &pane),
        "wqSxlBaoRF8ikBQ4n9roGxXoku6FITVfBy0tfIe\nwez term and rust rocks wYy7d7cz4AnB4a4s\nHHTci_",
        "wrong selection text"
    );
}
